//! What the database layer decides before it talks to the database: which host
//! entries one upsert writes, how a long list is cut into batches, and the text of
//! the batched upsert for each SQL dialect.

use vstd::prelude::*;
use vstd::hash_set::StringHashSet;
use crate::model::SourceHost;
use crate::text::{push_all, push_char};

verus! {

/// The SQL dialects the daemon speaks.
#[derive(Debug, PartialEq, Eq, Structural, Clone, Copy)]
pub enum DbDriver {
    Sqlite,
    Postgres,
}

/// How a character of a source id is written in a host key: a backslash doubled,
/// any other character as it is.
pub open spec fn escape_piece(c: char) -> Seq<char> {
    if c == '\\' {
        seq!['\\', '\\']
    } else {
        seq![c]
    }
}

/// A text with each backslash doubled.
pub open spec fn escape_text(s: Seq<char>) -> Seq<char>
    decreases s.len(),
{
    if s.len() == 0 {
        Seq::empty()
    } else {
        escape_piece(s[0]) + escape_text(s.drop_first())
    }
}

/// The key under which a host entry is told apart from the others in one upsert:
/// the escaped source id, a backslash and `0`, then the host name. Two entries get
/// the same key exactly when they have the same name and source id.
pub open spec fn host_key(name: Seq<char>, source_id: Seq<char>) -> Seq<char> {
    escape_text(source_id) + seq!['\\', '0'] + name
}

proof fn lemma_escape_push(s: Seq<char>, c: char)
    ensures
        escape_text(s.push(c)) == escape_text(s) + escape_piece(c),
    decreases s.len(),
{
    if s.len() == 0 {
        let t = s.push(c);
        assert(t.drop_first() =~= Seq::<char>::empty());
        assert(escape_text(t.drop_first()) == Seq::<char>::empty());
        assert(escape_text(s) == Seq::<char>::empty());
        assert(escape_text(t) =~= escape_piece(c));
        assert(escape_text(s) + escape_piece(c) =~= escape_piece(c));
    } else {
        assert(s.push(c).drop_first() =~= s.drop_first().push(c));
        lemma_escape_push(s.drop_first(), c);
        assert(s.push(c)[0] == s[0]);
        assert(escape_text(s.push(c)) =~= escape_piece(s[0]) + (escape_text(s.drop_first())
            + escape_piece(c)));
    }
}

proof fn lemma_host_key_step(name: Seq<char>, s: Seq<char>)
    requires
        s.len() > 0,
    ensures
        host_key(name, s) == escape_piece(s[0]) + host_key(name, s.drop_first()),
{
    assert(host_key(name, s) =~= escape_piece(s[0]) + host_key(name, s.drop_first()));
}

/// Different (name, source id) pairs have different host keys.
pub proof fn lemma_host_key_injective(n1: Seq<char>, s1: Seq<char>, n2: Seq<char>, s2: Seq<char>)
    requires
        host_key(n1, s1) == host_key(n2, s2),
    ensures
        n1 == n2,
        s1 == s2,
    decreases s1.len() + s2.len(),
{
    let k = host_key(n1, s1);
    if s1.len() == 0 && s2.len() == 0 {
        assert(k =~= seq!['\\', '0'] + n1);
        assert(k =~= seq!['\\', '0'] + n2);
        assert(n1 =~= k.subrange(2, k.len() as int));
        assert(n2 =~= k.subrange(2, k.len() as int));
    } else if s1.len() == 0 {
        assert(k =~= seq!['\\', '0'] + n1);
        lemma_host_key_step(n2, s2);
        assert(k[0] == '\\' && k[1] == '0');
        if s2[0] == '\\' {
            assert(k[1] == '\\');
        } else {
            assert(k[0] == s2[0]);
        }
    } else if s2.len() == 0 {
        assert(k =~= seq!['\\', '0'] + n2);
        lemma_host_key_step(n1, s1);
        if s1[0] == '\\' {
            assert(k[1] == '\\');
        } else {
            assert(k[0] == s1[0]);
        }
    } else {
        lemma_host_key_step(n1, s1);
        lemma_host_key_step(n2, s2);
        let r1 = host_key(n1, s1.drop_first());
        let r2 = host_key(n2, s2.drop_first());
        if s1[0] == '\\' {
            assert(k[0] == '\\');
            if s2[0] != '\\' {
                assert(k[0] == s2[0]);
            }
            assert(r1 =~= k.subrange(2, k.len() as int));
            assert(r2 =~= k.subrange(2, k.len() as int));
        } else {
            assert(k[0] == s1[0]);
            if s2[0] == '\\' {
                assert(k[0] == '\\');
            }
            assert(k[0] == s2[0]);
            assert(r1 =~= k.subrange(1, k.len() as int));
            assert(r2 =~= k.subrange(1, k.len() as int));
        }
        lemma_host_key_injective(n1, s1.drop_first(), n2, s2.drop_first());
        assert(s1 =~= seq![s1[0]] + s1.drop_first());
        assert(s2 =~= seq![s2[0]] + s2.drop_first());
    }
}

/// The key of a host entry.
fn key_of_host(h: &SourceHost) -> (r: String)
    ensures
        r@ == host_key(h.name@, h.source_id@),
{
    let mut r = String::new();
    let mut i: usize = 0;
    let mut sid: Vec<char> = Vec::new();
    for c in it: h.source_id.chars()
        invariant
            sid@ == it.seq().take(it.index() as int),
            it.seq() == h.source_id@,
    {
        sid.push(c);
        assert(sid@ =~= it.seq().take(it.index() as int + 1));
    }
    assert(sid@ =~= h.source_id@);
    while i < sid.len()
        invariant
            i <= sid.len(),
            sid@ == h.source_id@,
            r@ == escape_text(sid@.take(i as int)),
        decreases sid.len() - i,
    {
        let c = sid[i];
        proof {
            lemma_escape_push(sid@.take(i as int), c);
            assert(sid@.take(i + 1) =~= sid@.take(i as int).push(c));
        }
        if c == '\\' {
            push_char(&mut r, '\\');
            push_char(&mut r, '\\');
        } else {
            push_char(&mut r, c);
        }
        i = i + 1;
        assert(r@ =~= escape_text(sid@.take(i as int)));
    }
    assert(sid@.take(sid.len() as int) =~= sid@);
    push_char(&mut r, '\\');
    push_char(&mut r, '0');
    let mut name: Vec<char> = Vec::new();
    for c in it: h.name.chars()
        invariant
            name@ == it.seq().take(it.index() as int),
            it.seq() == h.name@,
    {
        name.push(c);
        assert(name@ =~= it.seq().take(it.index() as int + 1));
    }
    assert(name@ =~= h.name@);
    let mut j: usize = 0;
    while j < name.len()
        invariant
            j <= name.len(),
            name@ == h.name@,
            r@ == escape_text(h.source_id@) + seq!['\\', '0'] + name@.take(j as int),
        decreases name.len() - j,
    {
        push_char(&mut r, name[j]);
        j = j + 1;
        assert(r@ =~= escape_text(h.source_id@) + seq!['\\', '0'] + name@.take(j as int));
    }
    assert(name@.take(name.len() as int) =~= name@);
    r
}

/// Whether two entries are the same row: the same name and source id.
pub open spec fn same_row(a: SourceHost, b: SourceHost) -> bool {
    a.name@ == b.name@ && a.source_id@ == b.source_id@
}

/// Whether an entry of `hosts` before index `i` is the same row as `hosts[i]`.
pub open spec fn seen_before(hosts: Seq<SourceHost>, i: int) -> bool {
    exists|j: int| 0 <= j < i && same_row(hosts[j], hosts[i])
}

/// `hosts` with every entry dropped that repeats the name and source id of an
/// earlier one.
pub open spec fn dedup_of(hosts: Seq<SourceHost>) -> Seq<SourceHost>
    decreases hosts.len(),
{
    if hosts.len() == 0 {
        Seq::empty()
    } else {
        let rest = dedup_of(hosts.drop_last());
        if seen_before(hosts, hosts.len() - 1) {
            rest
        } else {
            rest.push(hosts.last())
        }
    }
}

/// The entries one upsert writes touch each row once, and every row of the input
/// among them: no two of them have the same name and source id, each is an entry of
/// the input, and each entry of the input has its row among them.
pub proof fn law_dedup_rows(hosts: Seq<SourceHost>)
    ensures
        forall|a: int, b: int|
            0 <= a < b < dedup_of(hosts).len() ==> !same_row(dedup_of(hosts)[a], dedup_of(hosts)[b]),
        forall|k: int|
            0 <= k < dedup_of(hosts).len() ==> exists|j: int|
                0 <= j < hosts.len() && hosts[j] == #[trigger] dedup_of(hosts)[k],
        forall|i: int|
            0 <= i < hosts.len() ==> exists|k: int|
                0 <= k < dedup_of(hosts).len() && same_row(dedup_of(hosts)[k], #[trigger] hosts[i]),
    decreases hosts.len(),
{
    if hosts.len() > 0 {
        let pre = hosts.drop_last();
        law_dedup_rows(pre);
        let rest = dedup_of(pre);
        let r = dedup_of(hosts);
        let last = hosts.last();
        let n = hosts.len() - 1;
        assert forall|k: int| 0 <= k < rest.len() implies exists|j: int|
            0 <= j < hosts.len() && hosts[j] == #[trigger] rest[k] by {
            let j = choose|j: int| 0 <= j < pre.len() && pre[j] == rest[k];
            assert(hosts[j] == pre[j]);
        }
        if seen_before(hosts, n) {
            assert(r == rest);
            assert forall|i: int| 0 <= i < hosts.len() implies exists|k: int|
                0 <= k < r.len() && same_row(r[k], #[trigger] hosts[i]) by {
                if i < n {
                    assert(hosts[i] == pre[i]);
                } else {
                    let j = choose|j: int| 0 <= j < n && same_row(hosts[j], hosts[n]);
                    assert(hosts[j] == pre[j]);
                    let k = choose|k: int| 0 <= k < rest.len() && same_row(rest[k], #[trigger] pre[j]);
                    assert(same_row(r[k], hosts[i]));
                }
            }
        } else {
            assert(r == rest.push(last));
            assert forall|a: int, b: int| 0 <= a < b < r.len() implies !same_row(r[a], r[b]) by {
                if b == rest.len() {
                    let j = choose|j: int| 0 <= j < hosts.len() && hosts[j] == #[trigger] rest[a];
                    assert(r[a] == rest[a]);
                    let j2 = choose|j: int| 0 <= j < pre.len() && pre[j] == rest[a];
                    assert(hosts[j2] == pre[j2]);
                    assert(!same_row(hosts[j2], hosts[n]));
                } else {
                    assert(r[a] == rest[a] && r[b] == rest[b]);
                }
            }
            assert forall|k: int| 0 <= k < r.len() implies exists|j: int|
                0 <= j < hosts.len() && hosts[j] == #[trigger] r[k] by {
                if k == rest.len() {
                    assert(hosts[n] == r[k]);
                } else {
                    assert(r[k] == rest[k]);
                }
            }
            assert forall|i: int| 0 <= i < hosts.len() implies exists|k: int|
                0 <= k < r.len() && same_row(r[k], #[trigger] hosts[i]) by {
                if i < n {
                    assert(hosts[i] == pre[i]);
                    let k = choose|k: int| 0 <= k < rest.len() && same_row(rest[k], #[trigger] pre[i]);
                    assert(r[k] == rest[k]);
                } else {
                    assert(r[rest.len() as int] == hosts[i]);
                }
            }
        }
    }
}

/// The entries one upsert writes: the first of each (name, source id) pair, in
/// order. A single insert may not touch one row twice.
pub fn dedup_hosts(hosts: &Vec<SourceHost>) -> (r: Vec<SourceHost>)
    ensures
        r@ == dedup_of(hosts@),
{
    let mut seen = StringHashSet::new();
    let mut r: Vec<SourceHost> = Vec::new();
    let mut i: usize = 0;
    while i < hosts.len()
        invariant
            i <= hosts.len(),
            r@ == dedup_of(hosts@.take(i as int)),
            forall|k: Seq<char>|
                seen@.contains(k) <==> exists|j: int|
                    0 <= j < i && k == host_key(
                        #[trigger] hosts@[j].name@,
                        hosts@[j].source_id@,
                    ),
        decreases hosts.len() - i,
    {
        let h = &hosts[i];
        let key = key_of_host(h);
        let ghost pre = hosts@.take(i as int);
        let ghost post = hosts@.take(i + 1);
        assert(post.drop_last() =~= pre);
        assert(post.last() == hosts@[i as int]);
        let present = seen.contains(key.as_str());
        proof {
            if present {
                let j = choose|j: int|
                    0 <= j < i && key@ == host_key(
                        #[trigger] hosts@[j].name@,
                        hosts@[j].source_id@,
                    );
                lemma_host_key_injective(
                    hosts@[j].name@,
                    hosts@[j].source_id@,
                    h.name@,
                    h.source_id@,
                );
                assert(post[j] == hosts@[j]);
                assert(same_row(post[j], post[i as int]));
            } else {
                assert forall|j: int| 0 <= j < i implies !same_row(post[j], post[i as int]) by {
                    assert(post[j] == hosts@[j]);
                    if same_row(post[j], post[i as int]) {
                        assert(key@ == host_key(hosts@[j].name@, hosts@[j].source_id@));
                    }
                }
            }
        }
        if !present {
            seen.insert(key);
            r.push(h.duplicate());
        }
        proof {
            assert forall|k: Seq<char>|
                seen@.contains(k) implies exists|j: int|
                    0 <= j < i + 1 && k == host_key(
                        #[trigger] hosts@[j].name@,
                        hosts@[j].source_id@,
                    ) by {
                if k == key@ {
                    assert(k == host_key(hosts@[i as int].name@, hosts@[i as int].source_id@));
                }
            }
        }
        i = i + 1;
    }
    assert(hosts@.take(hosts.len() as int) =~= hosts@);
    r
}

/// How many entries one insert statement writes at most.
pub const HOST_BATCH_SIZE: usize = 100;

/// The batches a list of `n` entries is written in: consecutive ranges of 100
/// entries, the last one shorter where `n` is not a multiple of 100.
pub fn batch_bounds(n: usize) -> (r: Vec<(usize, usize)>)
    ensures
        r.len() == (n + 99) / 100,
        forall|i: int|
            0 <= i < r.len() ==> (#[trigger] r@[i]).0 == 100 * i && r@[i].1 == if 100 * (i + 1)
                < n {
                100 * (i + 1)
            } else {
                n as int
            },
{
    let mut r: Vec<(usize, usize)> = Vec::new();
    let mut lo: usize = 0;
    while lo < n
        invariant
            lo <= n,
            lo == if 100 * r.len() < n {
                100 * r.len()
            } else {
                n as int
            },
            lo < n ==> r.len() < (n + 99) / 100,
            lo >= n ==> r.len() == (n + 99) / 100,
            forall|i: int|
                0 <= i < r.len() ==> (#[trigger] r@[i]).0 == 100 * i && r@[i].1 == if 100 * (i
                    + 1) < n {
                    100 * (i + 1)
                } else {
                    n as int
                },
        decreases n - lo,
    {
        let hi = if n - lo > HOST_BATCH_SIZE {
            lo + HOST_BATCH_SIZE
        } else {
            n
        };
        r.push((lo, hi));
        lo = hi;
    }
    r
}

/// The decimal digit `d`.
pub open spec fn digit_char(d: nat) -> char {
    seq!['0', '1', '2', '3', '4', '5', '6', '7', '8', '9'][d as int]
}

/// The decimal digits of `n`, most significant first, without leading zeros.
pub open spec fn decimal_text(n: nat) -> Seq<char>
    decreases n,
{
    if n < 10 {
        seq![digit_char(n)]
    } else {
        decimal_text(n / 10).push(digit_char(n % 10))
    }
}

/// Appends the decimal digits of `n` to `s`.
fn push_decimal(s: &mut String, n: usize)
    ensures
        final(s)@ == old(s)@ + decimal_text(n as nat),
    decreases n,
{
    let digits = vec!['0', '1', '2', '3', '4', '5', '6', '7', '8', '9'];
    assert(digits@ =~= seq!['0', '1', '2', '3', '4', '5', '6', '7', '8', '9']);
    if n < 10 {
        push_char(s, digits[n]);
        assert(final(s)@ =~= old(s)@ + decimal_text(n as nat));
    } else {
        push_decimal(s, n / 10);
        push_char(s, digits[n % 10]);
        assert(final(s)@ =~= old(s)@ + decimal_text(n as nat));
    }
}

/// The placeholders of one row in SQLite: five `?`.
pub open spec fn sqlite_row() -> Seq<char> {
    "(?, ?, ?, ?, ?)"@
}

/// The placeholders of row `i` (from 0) in PostgreSQL: the five numbered parameters
/// `$b` to `$b+4`, where `b = 5 * i + 1`.
pub open spec fn postgres_row(i: nat) -> Seq<char> {
    let b = 5 * i + 1;
    "($"@ + decimal_text(b) + ", $"@ + decimal_text(b + 1) + ", $"@ + decimal_text(b + 2) + ", $"@
        + decimal_text(b + 3) + ", $"@ + decimal_text(b + 4) + ")"@
}

/// The placeholders of row `i` (from 0) in the given dialect.
pub open spec fn row_placeholders(d: DbDriver, i: nat) -> Seq<char> {
    match d {
        DbDriver::Sqlite => sqlite_row(),
        DbDriver::Postgres => postgres_row(i),
    }
}

/// The placeholders of `n` rows, separated by `, `.
pub open spec fn values_text(d: DbDriver, n: nat) -> Seq<char>
    decreases n,
{
    if n == 0 {
        Seq::empty()
    } else if n == 1 {
        row_placeholders(d, 0)
    } else {
        values_text(d, (n - 1) as nat) + ", "@ + row_placeholders(d, (n - 1) as nat)
    }
}

/// The statement head of a host upsert.
pub open spec fn upsert_hosts_head() -> Seq<char> {
    "INSERT INTO host (name, source_id, disposition, created_at, updated_at) VALUES "@
}

/// The statement tail of a host upsert: an existing row takes the new disposition
/// and update time.
pub open spec fn upsert_hosts_tail() -> Seq<char> {
    " ON CONFLICT(name, source_id) DO UPDATE SET disposition = excluded.disposition, updated_at = excluded.updated_at"@
}

/// The statement that upserts `n` host rows at once.
pub open spec fn spec_upsert_hosts_sql(d: DbDriver, n: nat) -> Seq<char> {
    upsert_hosts_head() + values_text(d, n) + upsert_hosts_tail()
}

/// Appends the placeholders of row `i` to `s`.
fn push_row_placeholders(s: &mut String, d: DbDriver, i: usize)
    requires
        5 * i + 5 <= usize::MAX,
    ensures
        final(s)@ == old(s)@ + row_placeholders(d, i as nat),
{
    match d {
        DbDriver::Sqlite => {
            push_all(s, "(?, ?, ?, ?, ?)");
        },
        DbDriver::Postgres => {
            let b = i * 5 + 1;
            push_all(s, "($");
            push_decimal(s, b);
            push_all(s, ", $");
            push_decimal(s, b + 1);
            push_all(s, ", $");
            push_decimal(s, b + 2);
            push_all(s, ", $");
            push_decimal(s, b + 3);
            push_all(s, ", $");
            push_decimal(s, b + 4);
            push_all(s, ")");
            assert(final(s)@ =~= old(s)@ + row_placeholders(d, i as nat));
        },
    }
}

/// The statement that upserts `n` host rows at once, in the given dialect: one
/// group of placeholders per row, `, ` between groups; on a row that exists, the
/// disposition and update time are overwritten.
pub fn upsert_hosts_sql(d: DbDriver, n: usize) -> (r: String)
    requires
        5 * n + 5 <= usize::MAX,
    ensures
        r@ == spec_upsert_hosts_sql(d, n as nat),
{
    let mut s = String::new();
    push_all(
        &mut s,
        "INSERT INTO host (name, source_id, disposition, created_at, updated_at) VALUES ",
    );
    let ghost head = s@;
    let mut i: usize = 0;
    while i < n
        invariant
            i <= n,
            5 * n + 5 <= usize::MAX,
            head == upsert_hosts_head(),
            s@ == head + values_text(d, i as nat),
        decreases n - i,
    {
        if i > 0 {
            push_all(&mut s, ", ");
        }
        push_row_placeholders(&mut s, d, i);
        i = i + 1;
        assert(s@ =~= head + values_text(d, i as nat));
    }
    push_all(
        &mut s,
        " ON CONFLICT(name, source_id) DO UPDATE SET disposition = excluded.disposition, updated_at = excluded.updated_at",
    );
    assert(s@ =~= spec_upsert_hosts_sql(d, n as nat));
    s
}

} // verus!
