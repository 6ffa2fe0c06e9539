//! Keeping sources fresh: the ids of file-backed sources, which sources a refresh
//! cycle takes, and how the list directories are reconciled with the database.

use vstd::prelude::*;
use crate::api::validation::{source_id_chars_ok, source_id_length_ok, spec_valid_source_id};
use crate::model::{has_file_prefix, HostDisposition, Source, SourceHost, Timestamp};
use crate::parser::ParsedHost;
use crate::parse::is_alnum;
use crate::text::{chars_of, push_char, string_from, string_of};

verus! {

/// Where the last segment of `p[..end]` starts: just after the last `/` before
/// `end`, or at 0.
pub open spec fn segment_start(p: Seq<char>, end: int) -> int
    decreases end,
{
    if end <= 0 {
        0
    } else if p[end - 1] == '/' {
        end
    } else {
        segment_start(p, end - 1)
    }
}

/// The last component of a Unix path that is not `.`: repeated and trailing `/`
/// are skipped, and so is a `.` component; `None` when no such component is left
/// (the empty path, `/`, `.`).
pub open spec fn last_component(p: Seq<char>) -> Option<Seq<char>>
    decreases p.len(),
{
    if p.len() == 0 {
        None
    } else if p.last() == '/' {
        last_component(p.drop_last())
    } else if p.last() == '.' && (p.len() == 1 || p[p.len() - 2] == '/') {
        last_component(p.drop_last())
    } else {
        Some(p.subrange(segment_start(p, p.len() as int), p.len() as int))
    }
}

/// The file name of a Unix path, as `std::path::Path::file_name` gives it: its last
/// component, unless there is none or it is `..`.
pub open spec fn spec_file_name(path: Seq<char>) -> Option<Seq<char>> {
    match last_component(path) {
        Some(c) => if c == seq!['.', '.'] {
            None
        } else {
            Some(c)
        },
        None => None,
    }
}

/// Calls `std::path::Path::file_name` on `path` and converts the component to a
/// `String`. Claimed, as std documents `file_name` and `components` for Unix paths:
/// the result is `spec_file_name(path)` (the path is split at `/`, empty and
/// non-leading `.` components are dropped, and the last component is the name
/// unless it is `..`). The component of a `&str` path is valid UTF-8, so the
/// conversion loses nothing.
#[verifier::external_body]
fn file_name_of(path: &str) -> (r: Option<String>)
    ensures
        match r {
            Some(n) => spec_file_name(path@) == Some(n@),
            None => spec_file_name(path@) is None,
        },
{
    std::path::Path::new(path).file_name().map(|f| f.to_string_lossy().to_string())
}

/// Every character that is not an ASCII letter or digit becomes `-`.
pub open spec fn sanitize(s: Seq<char>) -> Seq<char> {
    s.map_values(|c: char| if is_alnum(c) { c } else { '-' })
}

/// Each run of hyphens shrinks to one hyphen.
pub open spec fn collapse_hyphens(s: Seq<char>) -> Seq<char>
    decreases s.len(),
{
    if s.len() == 0 {
        s
    } else if s.last() == '-' && s.len() >= 2 && s[s.len() - 2] == '-' {
        collapse_hyphens(s.drop_last())
    } else {
        collapse_hyphens(s.drop_last()).push(s.last())
    }
}

/// `s` without its leading hyphens.
pub open spec fn trim_hyphens_start(s: Seq<char>) -> Seq<char>
    decreases s.len(),
{
    if s.len() > 0 && s[0] == '-' {
        trim_hyphens_start(s.drop_first())
    } else {
        s
    }
}

/// `s` without its trailing hyphens.
pub open spec fn trim_hyphens_end(s: Seq<char>) -> Seq<char>
    decreases s.len(),
{
    if s.len() > 0 && s.last() == '-' {
        trim_hyphens_end(s.drop_last())
    } else {
        s
    }
}

/// `s` without leading and trailing hyphens.
pub open spec fn trim_hyphens(s: Seq<char>) -> Seq<char> {
    trim_hyphens_end(trim_hyphens_start(s))
}

/// The longest a source id may be.
pub const MAX_SOURCE_ID_LEN: usize = 64;

/// `file-block-` or `file-allow-`.
pub open spec fn id_prefix(d: HostDisposition) -> Seq<char> {
    match d {
        HostDisposition::Block => seq!['f', 'i', 'l', 'e', '-', 'b', 'l', 'o', 'c', 'k', '-'],
        HostDisposition::Allow => seq!['f', 'i', 'l', 'e', '-', 'a', 'l', 'l', 'o', 'w', '-'],
    }
}

/// The id of the source made for a list file of the given name: `file-block-` or
/// `file-allow-`, then the name with every run of characters other than ASCII
/// letters and digits turned into one hyphen and hyphens trimmed from both ends,
/// all cut to 64 characters.
pub open spec fn spec_source_id(file_name: Seq<char>, d: HostDisposition) -> Seq<char> {
    let full = id_prefix(d) + trim_hyphens(collapse_hyphens(sanitize(file_name)));
    if full.len() > 64 {
        full.take(64)
    } else {
        full
    }
}

/// The file name of `path`, or nothing when the path has none.
pub open spec fn file_name_or_empty(path: Seq<char>) -> Seq<char> {
    match spec_file_name(path) {
        Some(n) => n,
        None => Seq::empty(),
    }
}

/// The id of the source made for the list file at `path`.
pub open spec fn spec_derive_source_id(path: Seq<char>, d: HostDisposition) -> Seq<char> {
    spec_source_id(file_name_or_empty(path), d)
}

/// The characters of `file_name` with each one that is not an ASCII letter or digit
/// replaced by `-`.
fn sanitized(file_name: &Vec<char>) -> (r: Vec<char>)
    ensures
        r@ == sanitize(file_name@),
{
    let mut r: Vec<char> = Vec::new();
    let mut i: usize = 0;
    while i < file_name.len()
        invariant
            i <= file_name.len(),
            r@ == sanitize(file_name@.take(i as int)),
        decreases file_name.len() - i,
    {
        let c = file_name[i];
        let alnum = ('a' <= c && c <= 'z') || ('A' <= c && c <= 'Z') || ('0' <= c && c <= '9');
        if alnum {
            r.push(c);
        } else {
            r.push('-');
        }
        i = i + 1;
        assert(r@ =~= sanitize(file_name@.take(i as int)));
    }
    assert(file_name@.take(file_name.len() as int) =~= file_name@);
    r
}

/// `s` with each run of hyphens shrunk to one.
fn collapsed(s: &Vec<char>) -> (r: Vec<char>)
    ensures
        r@ == collapse_hyphens(s@),
{
    let mut r: Vec<char> = Vec::new();
    let mut prev_hyphen = false;
    let mut i: usize = 0;
    while i < s.len()
        invariant
            i <= s.len(),
            r@ == collapse_hyphens(s@.take(i as int)),
            prev_hyphen == (i > 0 && s@[i - 1] == '-'),
        decreases s.len() - i,
    {
        let c = s[i];
        assert(s@.take(i + 1).drop_last() =~= s@.take(i as int));
        if c == '-' {
            if !prev_hyphen {
                r.push(c);
            }
            prev_hyphen = true;
        } else {
            r.push(c);
            prev_hyphen = false;
        }
        i = i + 1;
    }
    assert(s@.take(s.len() as int) =~= s@);
    r
}

/// `s` without leading and trailing hyphens.
fn hyphens_trimmed(s: &Vec<char>) -> (r: Vec<char>)
    ensures
        r@ == trim_hyphens(s@),
{
    let n = s.len();
    let mut lo: usize = 0;
    assert(s@.subrange(0, n as int) =~= s@);
    while lo < n && s[lo] == '-'
        invariant
            lo <= n == s.len(),
            trim_hyphens_start(s@.subrange(lo as int, n as int)) == trim_hyphens_start(s@),
        decreases n - lo,
    {
        assert(s@.subrange(lo as int, n as int).drop_first() =~= s@.subrange(lo + 1, n as int));
        lo = lo + 1;
    }
    let mut hi: usize = n;
    while hi > lo && s[hi - 1] == '-'
        invariant
            lo <= hi <= n == s.len(),
            trim_hyphens_start(s@) == s@.subrange(lo as int, n as int),
            trim_hyphens_end(s@.subrange(lo as int, hi as int)) == trim_hyphens(s@),
        decreases hi,
    {
        assert(s@.subrange(lo as int, hi as int).drop_last() =~= s@.subrange(
            lo as int,
            hi - 1,
        ));
        hi = hi - 1;
    }
    let mut r: Vec<char> = Vec::new();
    let mut i: usize = lo;
    while i < hi
        invariant
            lo <= i <= hi <= n == s.len(),
            r@ == s@.subrange(lo as int, i as int),
        decreases hi - i,
    {
        r.push(s[i]);
        i = i + 1;
        assert(r@ =~= s@.subrange(lo as int, i as int));
    }
    r
}

/// Whether every character of `s` is an ASCII letter, digit or hyphen.
pub open spec fn id_chars(s: Seq<char>) -> bool {
    forall|i: int| 0 <= i < s.len() ==> is_alnum(#[trigger] s[i]) || s[i] == '-'
}

proof fn lemma_id_chars_drop(s: Seq<char>)
    requires
        id_chars(s),
        s.len() > 0,
    ensures
        id_chars(s.drop_first()),
        id_chars(s.drop_last()),
{
    let t = s.drop_first();
    let u = s.drop_last();
    assert forall|i: int| 0 <= i < u.len() implies is_alnum(#[trigger] u[i]) || u[i] == '-' by {
        assert(u[i] == s[i]);
    }
    assert forall|i: int| 0 <= i < t.len() implies is_alnum(#[trigger] t[i]) || t[i] == '-' by {
        assert(t[i] == s[i + 1]);
    }
}

/// Collapsing and trimming hyphens keeps a text made of ASCII letters, digits and
/// hyphens so.
proof fn lemma_id_chars(s: Seq<char>)
    requires
        id_chars(s),
    ensures
        id_chars(collapse_hyphens(s)),
        id_chars(trim_hyphens_start(s)),
        id_chars(trim_hyphens_end(s)),
    decreases s.len(),
{
    if s.len() > 0 {
        lemma_id_chars_drop(s);
        lemma_id_chars(s.drop_first());
        lemma_id_chars(s.drop_last());
        let c = collapse_hyphens(s.drop_last());
        let p = c.push(s.last());
        assert forall|i: int| 0 <= i < p.len() implies is_alnum(#[trigger] p[i]) || p[i]
            == '-' by {
            if i < c.len() {
                assert(p[i] == c[i]);
            }
        }
    }
}

/// Whether `s` holds no two hyphens in a row.
pub open spec fn no_double_hyphen(s: Seq<char>) -> bool {
    forall|i: int| 0 <= i < s.len() - 1 ==> !(#[trigger] s[i] == '-' && s[i + 1] == '-')
}

proof fn lemma_collapse_last(s: Seq<char>)
    requires
        s.len() > 0,
    ensures
        collapse_hyphens(s).len() > 0,
        collapse_hyphens(s).last() == s.last(),
    decreases s.len(),
{
    if s.last() == '-' && s.len() >= 2 && s[s.len() - 2] == '-' {
        lemma_collapse_last(s.drop_last());
    }
}

/// Collapsing leaves no two hyphens in a row.
proof fn lemma_collapse_no_double(s: Seq<char>)
    ensures
        no_double_hyphen(collapse_hyphens(s)),
    decreases s.len(),
{
    if s.len() > 0 {
        let u = s.drop_last();
        lemma_collapse_no_double(u);
        if !(s.last() == '-' && s.len() >= 2 && s[s.len() - 2] == '-') {
            let c = collapse_hyphens(u);
            let p = c.push(s.last());
            if u.len() > 0 {
                lemma_collapse_last(u);
            }
            assert forall|i: int| 0 <= i < p.len() - 1 implies !(#[trigger] p[i] == '-' && p[i
                + 1] == '-') by {
                if i + 1 < c.len() {
                    assert(p[i] == c[i] && p[i + 1] == c[i + 1]);
                } else {
                    assert(p[i] == c.last());
                    assert(c.last() == u.last());
                    assert(u.last() == s[s.len() - 2]);
                }
            }
        }
    }
}

/// Dropping hyphens from either end keeps a text free of two hyphens in a row; what
/// is left starts with no hyphen and is a prefix of the text trimmed at the start.
proof fn lemma_trim_hyphens_shape(s: Seq<char>)
    requires
        no_double_hyphen(s),
    ensures
        no_double_hyphen(trim_hyphens_start(s)),
        trim_hyphens_start(s).len() > 0 ==> trim_hyphens_start(s)[0] != '-',
        no_double_hyphen(trim_hyphens_end(s)),
        trim_hyphens_end(s).len() <= s.len(),
        trim_hyphens_end(s) == s.take(trim_hyphens_end(s).len() as int),
    decreases s.len(),
{
    if s.len() > 0 {
        let t = s.drop_first();
        let u = s.drop_last();
        assert forall|i: int| 0 <= i < t.len() - 1 implies !(#[trigger] t[i] == '-' && t[i
            + 1] == '-') by {
            assert(t[i] == s[i + 1] && t[i + 1] == s[i + 2]);
        }
        assert forall|i: int| 0 <= i < u.len() - 1 implies !(#[trigger] u[i] == '-' && u[i
            + 1] == '-') by {
            assert(u[i] == s[i] && u[i + 1] == s[i + 1]);
        }
        lemma_trim_hyphens_shape(t);
        lemma_trim_hyphens_shape(u);
        if s.last() == '-' {
            let e = trim_hyphens_end(u);
            assert(u.take(e.len() as int) =~= s.take(e.len() as int));
        } else {
            assert(s.take(s.len() as int) =~= s);
        }
    }
}

/// A derived id holds no two hyphens in a row.
proof fn lemma_source_id_no_double(file_name: Seq<char>, d: HostDisposition)
    ensures
        no_double_hyphen(spec_source_id(file_name, d)),
{
    let c = collapse_hyphens(sanitize(file_name));
    lemma_collapse_no_double(sanitize(file_name));
    lemma_trim_hyphens_shape(c);
    let t = trim_hyphens_start(c);
    lemma_trim_hyphens_shape(t);
    let body = trim_hyphens(c);
    assert(body == trim_hyphens_end(t));
    assert(body == t.take(body.len() as int));
    assert(body.len() > 0 ==> body[0] == t.take(body.len() as int)[0]);
    assert(body.len() > 0 ==> body[0] == t[0]);
    let pre = id_prefix(d);
    let full = pre + body;
    assert forall|i: int| 0 <= i < full.len() - 1 implies !(#[trigger] full[i] == '-' && full[i
        + 1] == '-') by {
        if i + 1 < 11 {
            assert(full[i] == pre[i] && full[i + 1] == pre[i + 1]);
        } else if i == 10 {
            assert(full[i + 1] == body[0]);
        } else {
            assert(full[i] == body[i - 11] && full[i + 1] == body[i - 10]);
        }
    }
    let id = spec_source_id(file_name, d);
    assert forall|i: int| 0 <= i < id.len() - 1 implies !(#[trigger] id[i] == '-' && id[i + 1]
        == '-') by {
        assert(id[i] == full[i] && id[i + 1] == full[i + 1]);
    }
}

/// Which characters make up a source id, and how long it is.
proof fn lemma_source_id_shape(file_name: Seq<char>, d: HostDisposition)
    ensures
        spec_source_id(file_name, d).len() <= 64,
        spec_source_id(file_name, d).len() >= 11,
        spec_source_id(file_name, d).take(11) == id_prefix(d),
        source_id_chars_ok(spec_source_id(file_name, d)),
{
    let s = sanitize(file_name);
    assert(id_chars(s));
    lemma_id_chars(s);
    let c = collapse_hyphens(s);
    lemma_id_chars(c);
    let t = trim_hyphens_start(c);
    lemma_id_chars(t);
    let body = trim_hyphens(c);
    let full = id_prefix(d) + body;
    assert forall|i: int| 0 <= i < full.len() implies is_alnum(#[trigger] full[i]) || full[i]
        == '-' by {
        if i >= 11 {
            assert(full[i] == body[i - 11]);
        }
    }
    assert(full.take(11) =~= id_prefix(d));
    let id = spec_source_id(file_name, d);
    assert forall|i: int| 0 <= i < id.len() implies is_alnum(#[trigger] id[i]) || id[i]
        == '-' by {
        assert(id[i] == full[i]);
    }
    assert(id.take(11) =~= full.take(11));
}

/// A derived source id is a valid source id: 1 to 64 bytes of ASCII letters,
/// digits and hyphens.
pub proof fn lemma_source_id_valid(file_name: Seq<char>, d: HostDisposition)
    ensures
        spec_valid_source_id(spec_source_id(file_name, d)),
{
    let id = spec_source_id(file_name, d);
    lemma_source_id_shape(file_name, d);
    assert(vstd::utf8::is_ascii_chars(id));
    vstd::utf8::is_ascii_chars_encode_utf8(id);
    assert(source_id_length_ok(id));
}

/// Every id derived for a list file is a valid source id, holds no two hyphens in a
/// row, carries the `file-` prefix that marks file-managed sources, and starts with
/// `file-block-` or `file-allow-` after the list's disposition.
pub proof fn law_derived_id_is_file_managed(path: Seq<char>, d: HostDisposition)
    ensures
        spec_valid_source_id(spec_derive_source_id(path, d)),
        no_double_hyphen(spec_derive_source_id(path, d)),
        has_file_prefix(spec_derive_source_id(path, d)),
        spec_derive_source_id(path, d).take(11) == id_prefix(d),
{
    let id = spec_derive_source_id(path, d);
    lemma_source_id_shape(file_name_or_empty(path), d);
    lemma_source_id_valid(file_name_or_empty(path), d);
    lemma_source_id_no_double(file_name_or_empty(path), d);
    assert(id.subrange(0, 5) =~= id.take(11).subrange(0, 5));
    assert(id_prefix(d).subrange(0, 5) =~= seq!['f', 'i', 'l', 'e', '-']);
}

/// The id of the source made for a list file named `file_name` with the given
/// disposition.
pub fn source_id_from_file_name(file_name: &str, disposition: HostDisposition) -> (r: String)
    ensures
        r@ == spec_source_id(file_name@, disposition),
        spec_valid_source_id(r@),
{
    let name = chars_of(file_name);
    let body = hyphens_trimmed(&collapsed(&sanitized(&name)));
    let mut full: Vec<char> = match disposition {
        HostDisposition::Block => vec!['f', 'i', 'l', 'e', '-', 'b', 'l', 'o', 'c', 'k', '-'],
        HostDisposition::Allow => vec!['f', 'i', 'l', 'e', '-', 'a', 'l', 'l', 'o', 'w', '-'],
    };
    assert(full@ =~= id_prefix(disposition));
    let mut i: usize = 0;
    while i < body.len()
        invariant
            i <= body.len(),
            full@ == id_prefix(disposition) + body@.take(i as int),
        decreases body.len() - i,
    {
        full.push(body[i]);
        i = i + 1;
        assert(full@ =~= id_prefix(disposition) + body@.take(i as int));
    }
    assert(body@.take(body.len() as int) =~= body@);
    proof {
        lemma_source_id_valid(file_name@, disposition);
    }
    if full.len() > MAX_SOURCE_ID_LEN {
        string_of(&full, 0, MAX_SOURCE_ID_LEN)
    } else {
        string_from(&full)
    }
}

/// The id of the source made for the list file at `path`: see `spec_source_id`,
/// applied to the file name of `path` (none gives the empty name).
pub fn derive_source_id(path: &str, disposition: HostDisposition) -> (r: String)
    ensures
        r@ == spec_derive_source_id(path@, disposition),
        spec_valid_source_id(r@),
        has_file_prefix(r@),
{
    proof {
        law_derived_id_is_file_managed(path@, disposition);
    }
    match file_name_of(path) {
        Some(name) => source_id_from_file_name(name.as_str(), disposition),
        None => {
            proof {
                reveal_strlit("");
            }
            source_id_from_file_name("", disposition)
        },
    }
}

/// A list file found in one of the watched directories, with the disposition of
/// the directory it lies in.
pub struct DiscoveredFile {
    pub path: String,
    pub disposition: HostDisposition,
}

/// A source that a list file calls for: its id and the file it comes from.
pub struct ExpectedFile {
    pub id: String,
    pub path: String,
    pub disposition: HostDisposition,
}

/// The id of the source for a discovered file.
pub open spec fn file_id(f: DiscoveredFile) -> Seq<char> {
    spec_derive_source_id(f.path@, f.disposition)
}

/// Whether the expected source `e` is the one made for `files[i]`.
pub open spec fn expected_from(e: ExpectedFile, files: Seq<DiscoveredFile>, i: int) -> bool {
    &&& 0 <= i < files.len()
    &&& e.id@ == file_id(files[i])
    &&& e.path@ == files[i].path@
    &&& e.disposition == files[i].disposition
    &&& forall|j: int| i < j < files.len() ==> file_id(#[trigger] files[j]) != e.id@
}

/// Whether some file of `files` gives the expected source `e`, and no later file
/// gives its id.
pub open spec fn made_from_last(e: ExpectedFile, files: Seq<DiscoveredFile>) -> bool {
    exists|i: int| expected_from(e, files, i)
}

/// Whether some entry of `r` has the id `id`.
pub open spec fn has_id(r: Seq<ExpectedFile>, id: Seq<char>) -> bool {
    exists|k: int| 0 <= k < r.len() && r[k].id@ == id
}

/// The sources that the discovered files call for: one per id, each made from the
/// last file that gives that id.
pub open spec fn expected_of(r: Seq<ExpectedFile>, files: Seq<DiscoveredFile>) -> bool {
    &&& forall|a: int, b: int| 0 <= a < b < r.len() ==> r[a].id@ != r[b].id@
    &&& forall|k: int| 0 <= k < r.len() ==> made_from_last(#[trigger] r[k], files)
    &&& forall|i: int| 0 <= i < files.len() ==> has_id(r, file_id(#[trigger] files[i]))
}

/// The sources that the discovered files call for, keyed by their derived ids:
/// where two files give the same id, the later one wins.
pub fn expected_files(files: &Vec<DiscoveredFile>) -> (r: Vec<ExpectedFile>)
    ensures
        expected_of(r@, files@),
{
    let mut r: Vec<ExpectedFile> = Vec::new();
    let ghost mut src: Seq<int> = Seq::empty();
    let mut i: usize = 0;
    while i < files.len()
        invariant
            i <= files.len(),
            src.len() == r.len(),
            forall|a: int, b: int| 0 <= a < b < r.len() ==> r@[a].id@ != r@[b].id@,
            forall|k: int|
                0 <= k < r.len() ==> expected_from(#[trigger] r@[k], files@.take(i as int), src[k]),
            forall|j: int| 0 <= j < i ==> has_id(r@, file_id(#[trigger] files@[j])),
        decreases files.len() - i,
    {
        let f = &files[i];
        let id = derive_source_id(f.path.as_str(), f.disposition);
        let mut k: usize = 0;
        while k < r.len() && r[k].id != id
            invariant
                k <= r.len(),
                forall|m: int| 0 <= m < k ==> r@[m].id@ != id@,
            decreases r.len() - k,
        {
            k = k + 1;
        }
        let ghost old_r = r@;
        let ghost old_src = src;
        let e = ExpectedFile { id, path: f.path.clone(), disposition: f.disposition };
        if k < r.len() {
            r.set(k, e);
            proof {
                src = src.update(k as int, i as int);
            }
        } else {
            r.push(e);
            proof {
                src = src.push(i as int);
            }
        }
        proof {
            let pre = files@.take(i as int);
            let post = files@.take(i + 1);
            assert forall|m: int| 0 <= m < r.len() implies expected_from(
                #[trigger] r@[m],
                post,
                src[m],
            ) by {
                if m != k {
                    assert(r@[m] == old_r[m]);
                    assert(expected_from(old_r[m], pre, old_src[m]));
                    assert(old_r[m].id@ != id@);
                    assert forall|j: int| src[m] < j < post.len() implies file_id(
                        #[trigger] post[j],
                    ) != r@[m].id@ by {
                        if j < i {
                            assert(post[j] == pre[j]);
                        }
                    }
                } else {
                    assert(post[i as int] == files@[i as int]);
                }
            }
            assert forall|j: int| 0 <= j < i + 1 implies has_id(r@, file_id(#[trigger] files@[j])) by {
                if j == i {
                    assert(r@[k as int].id@ == file_id(files@[j]));
                } else {
                    assert(has_id(old_r, file_id(files@[j])));
                    let m0 = choose|m: int|
                        0 <= m < old_r.len() && old_r[m].id@ == file_id(files@[j]);
                    assert(r@[m0].id@ == old_r[m0].id@);
                }
            }
        }
        i = i + 1;
    }
    proof {
        assert(files@.take(files.len() as int) =~= files@);
        assert forall|k: int| 0 <= k < r.len() implies made_from_last(#[trigger] r@[k], files@) by {
            assert(expected_from(r@[k], files@, src[k]));
        }
    }
    r
}

/// Whether some expected source has the id `id`.
pub open spec fn is_expected(expected: Seq<ExpectedFile>, id: Seq<char>) -> bool {
    exists|k: int| 0 <= k < expected.len() && expected[k].id@ == id
}

/// Whether `id` is among the expected sources.
fn expected_contains(expected: &Vec<ExpectedFile>, id: &String) -> (r: bool)
    ensures
        r == is_expected(expected@, id@),
{
    let mut k: usize = 0;
    while k < expected.len()
        invariant
            k <= expected.len(),
            forall|m: int| 0 <= m < k ==> expected@[m].id@ != id@,
        decreases expected.len() - k,
    {
        if expected[k].id == *id {
            return true;
        }
        k = k + 1;
    }
    false
}

/// The ids of the file-managed sources whose file is gone, in their order in
/// `existing`.
pub open spec fn orphans_of(existing: Seq<Source>, expected: Seq<ExpectedFile>) -> Seq<Seq<char>>
    decreases existing.len(),
{
    if existing.len() == 0 {
        Seq::empty()
    } else {
        let rest = orphans_of(existing.drop_last(), expected);
        let s = existing.last();
        if s.spec_is_file_managed() && !is_expected(expected, s.id@) {
            rest.push(s.id@)
        } else {
            rest
        }
    }
}

/// The ids of the file-managed sources that no discovered file calls for any more:
/// they are to be deleted.
pub fn orphaned_source_ids(existing: &Vec<Source>, expected: &Vec<ExpectedFile>) -> (r: Vec<
    String,
>)
    ensures
        crate::text::views(r@) == orphans_of(existing@, expected@),
{
    let mut r: Vec<String> = Vec::new();
    let mut i: usize = 0;
    while i < existing.len()
        invariant
            i <= existing.len(),
            crate::text::views(r@) == orphans_of(existing@.take(i as int), expected@),
        decreases existing.len() - i,
    {
        let s = &existing[i];
        assert(existing@.take(i + 1).drop_last() =~= existing@.take(i as int));
        if s.is_file_managed() && !expected_contains(expected, &s.id) {
            r.push(s.id.clone());
        }
        i = i + 1;
        assert(crate::text::views(r@) =~= orphans_of(existing@.take(i as int), expected@));
    }
    assert(existing@.take(existing.len() as int) =~= existing@);
    r
}

/// The index of the first file-managed source in `existing`, from `from` on, whose
/// id is `id`; -1 when there is none.
pub open spec fn find_file_source(existing: Seq<Source>, id: Seq<char>, from: int) -> int
    decreases existing.len() - from,
{
    if from >= existing.len() {
        -1
    } else if existing[from].spec_is_file_managed() && existing[from].id@ == id {
        from
    } else {
        find_file_source(existing, id, from + 1)
    }
}

proof fn lemma_find_file_source_bounds(existing: Seq<Source>, id: Seq<char>, from: int)
    requires
        0 <= from,
    ensures
        -1 <= find_file_source(existing, id, from) < existing.len(),
        find_file_source(existing, id, from) >= 0 ==> from <= find_file_source(existing, id, from)
            && existing[find_file_source(existing, id, from)].spec_is_file_managed()
            && existing[find_file_source(existing, id, from)].id@ == id,
    decreases existing.len() - from,
{
    if from < existing.len() && !(existing[from].spec_is_file_managed() && existing[from].id@
        == id) {
        lemma_find_file_source_bounds(existing, id, from + 1);
    }
}

/// The index of the first file-managed source whose id is `id`.
fn find_file_source_exec(existing: &Vec<Source>, id: &String) -> (r: Option<usize>)
    ensures
        match r {
            Some(k) => find_file_source(existing@, id@, 0) == k,
            None => find_file_source(existing@, id@, 0) == -1,
        },
{
    let mut k: usize = 0;
    while k < existing.len()
        invariant
            k <= existing.len(),
            find_file_source(existing@, id@, 0) == find_file_source(existing@, id@, k as int),
        decreases existing.len() - k,
    {
        if existing[k].id == *id && existing[k].is_file_managed() {
            return Some(k);
        }
        k = k + 1;
    }
    None
}

/// The source made for a list file that has none yet: no URL, the file's path, and
/// both times set to `now`.
pub open spec fn new_file_source(e: ExpectedFile, now: Timestamp) -> Source {
    Source {
        id: e.id,
        url: None,
        path: Some(e.path),
        disposition: e.disposition,
        created_at: now,
        updated_at: now,
    }
}

/// The sources to create for the expected sources that have no file-managed source
/// yet, in the order of `expected`.
pub open spec fn new_sources_of(expected: Seq<ExpectedFile>, existing: Seq<Source>, now: Timestamp) -> Seq<
    Source,
>
    decreases expected.len(),
{
    if expected.len() == 0 {
        Seq::empty()
    } else {
        let rest = new_sources_of(expected.drop_last(), existing, now);
        let e = expected.last();
        if find_file_source(existing, e.id@, 0) < 0 {
            rest.push(new_file_source(e, now))
        } else {
            rest
        }
    }
}

/// The sources to create for list files that have none yet.
pub fn new_file_sources(expected: &Vec<ExpectedFile>, existing: &Vec<Source>, now: Timestamp) -> (r:
    Vec<Source>)
    ensures
        r@ == new_sources_of(expected@, existing@, now),
{
    let mut r: Vec<Source> = Vec::new();
    let mut i: usize = 0;
    while i < expected.len()
        invariant
            i <= expected.len(),
            r@ == new_sources_of(expected@.take(i as int), existing@, now),
        decreases expected.len() - i,
    {
        let e = &expected[i];
        assert(expected@.take(i + 1).drop_last() =~= expected@.take(i as int));
        assert(expected@.take(i + 1).last() == expected@[i as int]);
        if find_file_source_exec(existing, &e.id).is_none() {
            r.push(
                Source {
                    id: e.id.clone(),
                    url: None,
                    path: Some(e.path.clone()),
                    disposition: e.disposition,
                    created_at: now,
                    updated_at: now,
                },
            );
        }
        i = i + 1;
        assert(r@ =~= new_sources_of(expected@.take(i as int), existing@, now));
    }
    assert(expected@.take(expected.len() as int) =~= expected@);
    r
}

/// An existing source with the path of its list file set anew.
pub open spec fn with_path(s: Source, path: String) -> Source {
    Source { path: Some(path), ..s }
}

/// For each expected source that has a file-managed source already, that source
/// with its path set to the file's, in the order of `expected`.
pub open spec fn existing_refreshes_of(expected: Seq<ExpectedFile>, existing: Seq<Source>) -> Seq<
    Source,
>
    decreases expected.len(),
{
    if expected.len() == 0 {
        Seq::empty()
    } else {
        let rest = existing_refreshes_of(expected.drop_last(), existing);
        let e = expected.last();
        let k = find_file_source(existing, e.id@, 0);
        if k >= 0 {
            rest.push(with_path(existing[k], e.path))
        } else {
            rest
        }
    }
}

/// The file-managed sources that already exist for the discovered files, each with
/// the path of its file, as a refresh takes them.
pub fn existing_file_refreshes(expected: &Vec<ExpectedFile>, existing: &Vec<Source>) -> (r: Vec<
    Source,
>)
    ensures
        r@ == existing_refreshes_of(expected@, existing@),
{
    let mut r: Vec<Source> = Vec::new();
    let mut i: usize = 0;
    while i < expected.len()
        invariant
            i <= expected.len(),
            r@ == existing_refreshes_of(expected@.take(i as int), existing@),
        decreases expected.len() - i,
    {
        let e = &expected[i];
        assert(expected@.take(i + 1).drop_last() =~= expected@.take(i as int));
        assert(expected@.take(i + 1).last() == expected@[i as int]);
        proof {
            lemma_find_file_source_bounds(existing@, e.id@, 0);
        }
        match find_file_source_exec(existing, &e.id) {
            Some(k) => {
                let mut s = existing[k].duplicate();
                s.path = Some(e.path.clone());
                r.push(s);
            },
            None => {},
        }
        i = i + 1;
        assert(r@ =~= existing_refreshes_of(expected@.take(i as int), existing@));
    }
    assert(expected@.take(expected.len() as int) =~= expected@);
    r
}

/// Whether `existing` holds a file-managed source with the id `id`.
pub open spec fn has_file_source(existing: Seq<Source>, id: Seq<char>) -> bool {
    exists|i: int| 0 <= i < existing.len() && existing[i].spec_is_file_managed() && existing[i].id@ == id
}

/// The ids of some sources.
pub open spec fn ids_of(sources: Seq<Source>) -> Seq<Seq<char>> {
    sources.map_values(|s: Source| s.id@)
}

proof fn lemma_find_file_source_found(existing: Seq<Source>, id: Seq<char>, from: int)
    requires
        0 <= from <= existing.len(),
    ensures
        find_file_source(existing, id, from) >= 0 <==> exists|i: int|
            from <= i < existing.len() && existing[i].spec_is_file_managed() && existing[i].id@ == id,
    decreases existing.len() - from,
{
    if from < existing.len() {
        lemma_find_file_source_found(existing, id, from + 1);
    }
}

proof fn lemma_orphans_contain(existing: Seq<Source>, expected: Seq<ExpectedFile>, id: Seq<char>)
    ensures
        orphans_of(existing, expected).contains(id) <==> has_file_source(existing, id)
            && !is_expected(expected, id),
    decreases existing.len(),
{
    if existing.len() > 0 {
        let pre = existing.drop_last();
        lemma_orphans_contain(pre, expected, id);
        let s = existing.last();
        let rest = orphans_of(pre, expected);
        vstd::seq_lib::lemma_seq_contains_after_push(rest, s.id@, id);
        if has_file_source(existing, id) {
            let i = choose|i: int|
                0 <= i < existing.len() && existing[i].spec_is_file_managed() && existing[i].id@ == id;
            if i < pre.len() {
                assert(pre[i] == existing[i]);
            }
        }
        if has_file_source(pre, id) {
            let i = choose|i: int|
                0 <= i < pre.len() && pre[i].spec_is_file_managed() && pre[i].id@ == id;
            assert(existing[i] == pre[i]);
        }
    }
}

proof fn lemma_new_sources_ids(expected: Seq<ExpectedFile>, existing: Seq<Source>, now: Timestamp, id: Seq<char>)
    ensures
        ids_of(new_sources_of(expected, existing, now)).contains(id) <==> is_expected(expected, id)
            && !has_file_source(existing, id),
    decreases expected.len(),
{
    lemma_find_file_source_found(existing, id, 0);
    if expected.len() > 0 {
        let pre = expected.drop_last();
        lemma_new_sources_ids(pre, existing, now, id);
        let e = expected.last();
        let rest = new_sources_of(pre, existing, now);
        lemma_find_file_source_found(existing, e.id@, 0);
        assert(ids_of(rest.push(new_file_source(e, now))) =~= ids_of(rest).push(e.id@));
        vstd::seq_lib::lemma_seq_contains_after_push(ids_of(rest), e.id@, id);
        if is_expected(expected, id) {
            let k = choose|k: int| 0 <= k < expected.len() && expected[k].id@ == id;
            if k < pre.len() {
                assert(pre[k] == expected[k]);
            }
        }
        if is_expected(pre, id) {
            let k = choose|k: int| 0 <= k < pre.len() && pre[k].id@ == id;
            assert(expected[k] == pre[k]);
        }
    }
}

proof fn lemma_refreshes_ids(expected: Seq<ExpectedFile>, existing: Seq<Source>, id: Seq<char>)
    ensures
        ids_of(existing_refreshes_of(expected, existing)).contains(id) <==> is_expected(expected, id)
            && has_file_source(existing, id),
    decreases expected.len(),
{
    lemma_find_file_source_found(existing, id, 0);
    if expected.len() > 0 {
        let pre = expected.drop_last();
        lemma_refreshes_ids(pre, existing, id);
        let e = expected.last();
        let rest = existing_refreshes_of(pre, existing);
        lemma_find_file_source_found(existing, e.id@, 0);
        lemma_find_file_source_bounds(existing, e.id@, 0);
        let k = find_file_source(existing, e.id@, 0);
        if k >= 0 {
            assert(ids_of(rest.push(with_path(existing[k], e.path))) =~= ids_of(rest).push(e.id@));
        }
        vstd::seq_lib::lemma_seq_contains_after_push(ids_of(rest), e.id@, id);
        if is_expected(expected, id) {
            let j = choose|j: int| 0 <= j < expected.len() && expected[j].id@ == id;
            if j < pre.len() {
                assert(pre[j] == expected[j]);
            }
        }
        if is_expected(pre, id) {
            let j = choose|j: int| 0 <= j < pre.len() && pre[j].id@ == id;
            assert(expected[j] == pre[j]);
        }
    }
}

/// A sync reconciles the file-managed sources with the list files: a source is
/// deleted exactly when it is file-managed and no file calls for it, created exactly
/// when a file calls for it and no file-managed source has its id, and refreshed as
/// an existing one exactly when a file calls for it and it exists. So after the
/// deletions and creations the file-managed ids are the ids the files call for.
pub proof fn law_sync_reconciles(existing: Seq<Source>, expected: Seq<ExpectedFile>, now: Timestamp, id: Seq<char>)
    ensures
        orphans_of(existing, expected).contains(id) <==> has_file_source(existing, id)
            && !is_expected(expected, id),
        ids_of(new_sources_of(expected, existing, now)).contains(id) <==> is_expected(expected, id)
            && !has_file_source(existing, id),
        ids_of(existing_refreshes_of(expected, existing)).contains(id) <==> is_expected(expected, id)
            && has_file_source(existing, id),
        is_expected(expected, id) <==> (has_file_source(existing, id) && !orphans_of(
            existing,
            expected,
        ).contains(id)) || ids_of(new_sources_of(expected, existing, now)).contains(id),
{
    lemma_orphans_contain(existing, expected, id);
    lemma_new_sources_ids(expected, existing, now, id);
    lemma_refreshes_ids(expected, existing, id);
}

/// Which file sources a sync refreshes: those it just created and all that existed
/// already, at start-up and on every change in the directories alike. A change event
/// does not say which file changed, so every existing file source may have new
/// contents.
pub open spec fn spec_sources_to_refresh(created: Seq<Source>, existing: Seq<Source>) -> Seq<Source> {
    created + existing
}

/// The file sources a sync refreshes, from those it created (and stored) and the
/// refreshes of those that existed: the created ones first, then the existing ones.
pub fn sources_to_refresh(created: Vec<Source>, existing: Vec<Source>) -> (r: Vec<Source>)
    ensures
        r@ == spec_sources_to_refresh(created@, existing@),
{
    let mut r = created;
    let mut e = existing;
    r.append(&mut e);
    r
}

/// Whether a refresh cycle takes the source: it has a URL or a path and was last
/// refreshed before `threshold`.
pub open spec fn is_stale(s: Source, threshold: Timestamp) -> bool {
    (s.url is Some || s.path is Some) && s.updated_at < threshold
}

/// The sources of `all` that a refresh cycle takes, in order.
pub open spec fn stale_of(all: Seq<Source>, threshold: Timestamp) -> Seq<Source>
    decreases all.len(),
{
    if all.len() == 0 {
        Seq::empty()
    } else {
        let rest = stale_of(all.drop_last(), threshold);
        if is_stale(all.last(), threshold) {
            rest.push(all.last())
        } else {
            rest
        }
    }
}

/// The sources a refresh cycle started at `now` takes: those with a URL or path
/// that were last refreshed more than `stale_age` nanoseconds before `now`.
pub fn stale_sources(all: Vec<Source>, now: Timestamp, stale_age: i128) -> (r: Vec<Source>)
    requires
        i128::MIN <= now - stale_age <= i128::MAX,
    ensures
        r@ == stale_of(all@, (now - stale_age) as i128),
{
    let threshold: i128 = now - stale_age;
    let mut r: Vec<Source> = Vec::new();
    let mut i: usize = 0;
    while i < all.len()
        invariant
            i <= all.len(),
            threshold == now - stale_age,
            r@ == stale_of(all@.take(i as int), threshold),
        decreases all.len() - i,
    {
        let s = &all[i];
        assert(all@.take(i + 1).drop_last() =~= all@.take(i as int));
        assert(all@.take(i + 1).last() == all@[i as int]);
        if (s.url.is_some() || s.path.is_some()) && s.updated_at < threshold {
            r.push(s.duplicate());
        }
        i = i + 1;
        assert(r@ =~= stale_of(all@.take(i as int), threshold));
    }
    assert(all@.take(all.len() as int) =~= all@);
    r
}

/// Whether a file in a list directory is skipped: its name starts with a dot.
pub open spec fn spec_is_dotfile(name: Seq<char>) -> bool {
    name.len() > 0 && name[0] == '.'
}

/// Whether a file in a list directory is skipped because its name starts with a dot.
pub fn is_dotfile(name: &str) -> (r: bool)
    ensures
        r == spec_is_dotfile(name@),
{
    let v = chars_of(name);
    v.len() > 0 && v[0] == '.'
}

/// Why a reload that was asked for is not done.
#[derive(Debug, PartialEq, Eq, Structural, Clone, Copy)]
pub enum ReloadRefusal {
    /// No source has the id.
    NotFound,
    /// The source has neither URL nor path to reload from.
    ManuallyManaged,
}

impl ReloadRefusal {
    /// The text of the refusal.
    pub open spec fn spec_message(self) -> Seq<char> {
        match self {
            ReloadRefusal::NotFound => "Source not found"@,
            ReloadRefusal::ManuallyManaged => "Source is manually-managed"@,
        }
    }

    /// The text of the refusal.
    pub fn message(&self) -> (r: String)
        ensures
            r@ == self.spec_message(),
    {
        match self {
            ReloadRefusal::NotFound => "Source not found".to_string(),
            ReloadRefusal::ManuallyManaged => "Source is manually-managed".to_string(),
        }
    }
}

/// Decides a reload that was asked for by source id, from what the database held
/// under that id: refused when there was no such source or when it is managed by
/// hand, else the source to refresh.
pub fn check_manual_reload(found: Option<Source>) -> (r: Result<Source, ReloadRefusal>)
    ensures
        match found {
            None => r == Err::<Source, ReloadRefusal>(ReloadRefusal::NotFound),
            Some(s) => if s.spec_is_manual() {
                r == Err::<Source, ReloadRefusal>(ReloadRefusal::ManuallyManaged)
            } else {
                r == Ok::<Source, ReloadRefusal>(s)
            },
        },
{
    match found {
        None => Err(ReloadRefusal::NotFound),
        Some(s) => {
            if s.url.is_none() && s.path.is_none() {
                Err(ReloadRefusal::ManuallyManaged)
            } else {
                Ok(s)
            }
        },
    }
}

/// The prefix of the lock that guards the refresh of one source across daemons.
pub open spec fn reload_lock_prefix() -> Seq<char> {
    "blackhole:source-reload:"@
}

/// The key of the lock that guards the refresh of the source `source_id`.
pub fn reload_lock_key(source_id: &str) -> (r: String)
    ensures
        r@ == reload_lock_prefix() + source_id@,
{
    let mut r = "blackhole:source-reload:".to_string();
    let v = chars_of(source_id);
    let mut i: usize = 0;
    while i < v.len()
        invariant
            i <= v.len(),
            v@ == source_id@,
            r@ == reload_lock_prefix() + v@.take(i as int),
        decreases v.len() - i,
    {
        push_char(&mut r, v[i]);
        i = i + 1;
        assert(r@ =~= reload_lock_prefix() + v@.take(i as int));
    }
    assert(v@.take(v.len() as int) =~= v@);
    r
}

/// Where the contents of a source come from.
pub enum ContentOrigin {
    Url(String),
    Path(String),
}

/// Where a refresh reads a source from: its URL if it has one, else its path;
/// `None` for a source with neither.
pub fn content_origin(source: &Source) -> (r: Option<ContentOrigin>)
    ensures
        match r {
            Some(ContentOrigin::Url(u)) => source.url == Some(u),
            Some(ContentOrigin::Path(p)) => source.url is None && source.path == Some(p),
            None => source.url is None && source.path is None,
        },
{
    match &source.url {
        Some(u) => Some(ContentOrigin::Url(u.clone())),
        None => match &source.path {
            Some(p) => Some(ContentOrigin::Path(p.clone())),
            None => None,
        },
    }
}

/// The entry that a refresh at `time` stores for a host parsed from `source`.
pub open spec fn refreshed_host(name: Seq<char>, source: Source, time: Timestamp) -> (Seq<char>, Seq<char>, HostDisposition, Timestamp, Timestamp) {
    (name, source.id@, source.disposition, time, time)
}

/// The fields of a host entry.
pub open spec fn host_fields(h: SourceHost) -> (Seq<char>, Seq<char>, HostDisposition, Timestamp, Timestamp) {
    (h.name@, h.source_id@, h.disposition, h.created_at, h.updated_at)
}

/// The host entries that a refresh of `source` at `time` stores for the hosts parsed
/// from its contents: one per parsed host, in order, each with the source's id and
/// disposition and both times set to `time`.
pub fn hosts_for_refresh(parsed: &Vec<ParsedHost>, source: &Source, time: Timestamp) -> (r: Vec<
    SourceHost,
>)
    ensures
        r.len() == parsed.len(),
        forall|i: int|
            0 <= i < r.len() ==> host_fields(#[trigger] r@[i]) == refreshed_host(
                parsed@[i].name@,
                *source,
                time,
            ),
        forall|i: int|
            0 <= i < r.len() ==> (#[trigger] r@[i]).name@ == parsed@[i].name@ && r@[i].source_id@
                == source.id@ && r@[i].disposition == source.disposition && r@[i].created_at == time
                && r@[i].updated_at == time,
{
    let mut r: Vec<SourceHost> = Vec::new();
    let mut i: usize = 0;
    while i < parsed.len()
        invariant
            i <= parsed.len(),
            r.len() == i,
            forall|k: int|
                0 <= k < i ==> host_fields(#[trigger] r@[k]) == refreshed_host(
                    parsed@[k].name@,
                    *source,
                    time,
                ),
            forall|k: int|
                0 <= k < i ==> (#[trigger] r@[k]).name@ == parsed@[k].name@ && r@[k].source_id@
                    == source.id@ && r@[k].disposition == source.disposition && r@[k].created_at
                    == time && r@[k].updated_at == time,
        decreases parsed.len() - i,
    {
        r.push(
            SourceHost {
                name: parsed[i].name.clone(),
                source_id: source.id.clone(),
                disposition: source.disposition,
                created_at: time,
                updated_at: time,
            },
        );
        i = i + 1;
    }
    r
}

/// An entry stored by a refresh is the parsed host under the source it was loaded
/// from: it carries the source's id and disposition (an allowlist's hosts are
/// allowed, a blocklist's blocked) and the time of the refresh.
pub proof fn law_refreshed_host_follows_source(h: SourceHost, name: Seq<char>, source: Source, time: Timestamp)
    requires
        host_fields(h) == refreshed_host(name, source, time),
    ensures
        h.name@ == name,
        h.source_id@ == source.id@,
        h.disposition == source.disposition,
        h.created_at == time,
        h.updated_at == time,
{
}

/// Each source a sync creates is made for one expected list file: it has that file's
/// id, path and disposition (a file in an allowlist directory makes an allowing
/// source), no URL, both times set to `now`, and no file-managed source had its id.
pub proof fn law_new_sources_follow_files(expected: Seq<ExpectedFile>, existing: Seq<Source>, now: Timestamp)
    ensures
        forall|k: int|
            0 <= k < new_sources_of(expected, existing, now).len() ==> exists|j: int|
                0 <= j < expected.len() && (#[trigger] new_sources_of(expected, existing, now)[k]).id
                    == expected[j].id && new_sources_of(expected, existing, now)[k].path == Some(
                    expected[j].path,
                ) && new_sources_of(expected, existing, now)[k].disposition
                    == expected[j].disposition && new_sources_of(expected, existing, now)[k].url
                    is None && new_sources_of(expected, existing, now)[k].created_at == now
                    && new_sources_of(expected, existing, now)[k].updated_at == now
                    && !has_file_source(existing, expected[j].id@),
    decreases expected.len(),
{
    if expected.len() > 0 {
        let pre = expected.drop_last();
        law_new_sources_follow_files(pre, existing, now);
        let rest = new_sources_of(pre, existing, now);
        let r = new_sources_of(expected, existing, now);
        let e = expected.last();
        lemma_find_file_source_found(existing, e.id@, 0);
        assert forall|k: int| 0 <= k < r.len() implies exists|j: int|
            0 <= j < expected.len() && (#[trigger] r[k]).id == expected[j].id && r[k].path == Some(
                expected[j].path,
            ) && r[k].disposition == expected[j].disposition && r[k].url is None
                && r[k].created_at == now && r[k].updated_at == now && !has_file_source(
                existing,
                expected[j].id@,
            ) by {
            if k < rest.len() {
                assert(r[k] == rest[k]);
                let j = choose|j: int|
                    0 <= j < pre.len() && (#[trigger] rest[k]).id == pre[j].id && rest[k].path
                        == Some(pre[j].path) && rest[k].disposition == pre[j].disposition
                        && rest[k].url is None && rest[k].created_at == now && rest[k].updated_at
                        == now && !has_file_source(existing, pre[j].id@);
                assert(expected[j] == pre[j]);
            } else {
                let j = expected.len() - 1;
                assert(expected[j] == e);
                assert(r[k] == new_file_source(e, now));
            }
        }
    }
}

} // verus!
