//! The blocklist: which names are blocked or allowed, how a query name is matched
//! against exact and wildcard entries, and which clients have blocking paused.

use vstd::prelude::*;
use vstd::hash_map::StringHashMap;
use vstd::hash_set::StringHashSet;
use crate::config::BlocklistConfig;
use crate::model::{HostDisposition, SourceHost};
use crate::name::{parse_lower_name, spec_lower_name, DnsName, NameView, label_views};
use crate::text::{push_char, views};

verus! {

broadcast use vstd::hash_map::group_hash_map_axioms;

/// The characters that stand for byte `b` in a key: the byte itself as a character,
/// with a backslash before `.` and `\`.
pub open spec fn escape_byte(b: u8) -> Seq<char> {
    if b == 46u8 || b == 92u8 {
        seq!['\\', b as char]
    } else {
        seq![b as char]
    }
}

/// The characters that stand for a label in a key.
pub open spec fn escape_label(l: Seq<u8>) -> Seq<char>
    decreases l.len(),
{
    if l.len() == 0 {
        seq![]
    } else {
        escape_label(l.drop_last()) + escape_byte(l.last())
    }
}

/// The labels of a key, each escaped and followed by `.`.
pub open spec fn labels_key(ls: Seq<Seq<u8>>) -> Seq<char>
    decreases ls.len(),
{
    if ls.len() == 0 {
        seq![]
    } else {
        labels_key(ls.drop_last()) + escape_label(ls.last()) + seq!['.']
    }
}

/// The key under which the blocklist files a name: `F` for a fully qualified name,
/// `R` for a relative one, then its escaped labels, each followed by `.`. Two names
/// get the same key exactly when they have the same labels and the same flag.
pub open spec fn spec_name_key(n: NameView) -> Seq<char> {
    seq![
        if n.1 {
            'F'
        } else {
            'R'
        },
    ] + labels_key(n.0)
}

proof fn lemma_escape_label_front(l: Seq<u8>)
    requires
        l.len() > 0,
    ensures
        escape_label(l) == escape_byte(l[0]) + escape_label(l.drop_first()),
    decreases l.len(),
{
    if l.len() == 1 {
        assert(l.drop_last() =~= Seq::<u8>::empty());
        assert(l.drop_first() =~= Seq::<u8>::empty());
        assert(escape_label(l) =~= escape_byte(l[0]) + escape_label(l.drop_first()));
    } else {
        lemma_escape_label_front(l.drop_last());
        assert(l.drop_last().drop_first() =~= l.drop_first().drop_last());
        assert(l.drop_first().last() == l.last());
        assert(l.drop_last()[0] == l[0]);
        assert(escape_label(l) =~= escape_byte(l[0]) + escape_label(l.drop_first()));
    }
}

proof fn lemma_labels_key_front(ls: Seq<Seq<u8>>)
    requires
        ls.len() > 0,
    ensures
        labels_key(ls) == escape_label(ls[0]) + seq!['.'] + labels_key(ls.drop_first()),
    decreases ls.len(),
{
    if ls.len() == 1 {
        assert(ls.drop_last() =~= Seq::<Seq<u8>>::empty());
        assert(ls.drop_first() =~= Seq::<Seq<u8>>::empty());
        assert(labels_key(ls) =~= escape_label(ls[0]) + seq!['.'] + labels_key(ls.drop_first()));
    } else {
        lemma_labels_key_front(ls.drop_last());
        assert(ls.drop_last().drop_first() =~= ls.drop_first().drop_last());
        assert(ls.drop_first().last() == ls.last());
        assert(ls.drop_last()[0] == ls[0]);
        assert(labels_key(ls) =~= escape_label(ls[0]) + seq!['.'] + labels_key(ls.drop_first()));
    }
}

/// A byte stands for itself as a character, so two bytes are equal when their
/// characters are.
proof fn lemma_byte_char(a: u8, b: u8)
    ensures
        (a as char == b as char) ==> a == b,
        (a as char == '.') ==> a == 46u8,
        (a as char == '\\') ==> a == 92u8,
{
}

/// An escaped label ended by `.` is read back unambiguously: what follows it is
/// determined too.
proof fn lemma_escaped_label_split(l1: Seq<u8>, r1: Seq<char>, l2: Seq<u8>, r2: Seq<char>)
    requires
        escape_label(l1) + seq!['.'] + r1 == escape_label(l2) + seq!['.'] + r2,
    ensures
        l1 == l2,
        r1 == r2,
    decreases l1.len() + l2.len(),
{
    let k = escape_label(l1) + seq!['.'] + r1;
    if l1.len() == 0 && l2.len() == 0 {
        assert(k =~= seq!['.'] + r1);
        assert(k =~= seq!['.'] + r2);
        assert(r1 =~= k.subrange(1, k.len() as int));
        assert(r2 =~= k.subrange(1, k.len() as int));
    } else if l1.len() == 0 {
        assert(k =~= seq!['.'] + r1);
        lemma_escape_label_front(l2);
        let b = l2[0];
        lemma_byte_char(b, b);
        assert(k =~= escape_byte(b) + (escape_label(l2.drop_first()) + seq!['.'] + r2));
        assert(k[0] == '.');
        assert(k[0] == escape_byte(b)[0]);
    } else if l2.len() == 0 {
        assert(k =~= seq!['.'] + r2) by {
            assert(escape_label(l2) =~= Seq::<char>::empty());
        }
        lemma_escape_label_front(l1);
        let b = l1[0];
        lemma_byte_char(b, b);
        assert(k =~= escape_byte(b) + (escape_label(l1.drop_first()) + seq!['.'] + r1));
        assert(k[0] == '.');
        assert(k[0] == escape_byte(b)[0]);
    } else {
        lemma_escape_label_front(l1);
        lemma_escape_label_front(l2);
        let b1 = l1[0];
        let b2 = l2[0];
        lemma_byte_char(b1, b2);
        lemma_byte_char(b2, b1);
        let t1 = escape_label(l1.drop_first()) + seq!['.'] + r1;
        let t2 = escape_label(l2.drop_first()) + seq!['.'] + r2;
        assert(k =~= escape_byte(b1) + t1);
        assert(k =~= escape_byte(b2) + t2);
        assert(k[0] == escape_byte(b1)[0]);
        assert(k[0] == escape_byte(b2)[0]);
        let e1 = b1 == 46u8 || b1 == 92u8;
        let e2 = b2 == 46u8 || b2 == 92u8;
        if e1 {
            assert(k[0] == '\\');
            assert(e2);
            assert(k[1] == b1 as char);
            assert(k[1] == b2 as char);
            assert(t1 =~= k.subrange(2, k.len() as int));
            assert(t2 =~= k.subrange(2, k.len() as int));
        } else {
            assert(!e2);
            assert(t1 =~= k.subrange(1, k.len() as int));
            assert(t2 =~= k.subrange(1, k.len() as int));
        }
        assert(b1 == b2);
        lemma_escaped_label_split(l1.drop_first(), r1, l2.drop_first(), r2);
        assert(l1 =~= seq![b1] + l1.drop_first());
        assert(l2 =~= seq![b2] + l2.drop_first());
    }
}

proof fn lemma_labels_key_injective(ls1: Seq<Seq<u8>>, ls2: Seq<Seq<u8>>)
    requires
        labels_key(ls1) == labels_key(ls2),
    ensures
        ls1 == ls2,
    decreases ls1.len(),
{
    if ls1.len() == 0 && ls2.len() == 0 {
    } else if ls1.len() == 0 {
        lemma_labels_key_front(ls2);
        assert(labels_key(ls2).len() > 0);
    } else if ls2.len() == 0 {
        lemma_labels_key_front(ls1);
        assert(labels_key(ls1).len() > 0);
    } else {
        lemma_labels_key_front(ls1);
        lemma_labels_key_front(ls2);
        lemma_escaped_label_split(
            ls1[0],
            labels_key(ls1.drop_first()),
            ls2[0],
            labels_key(ls2.drop_first()),
        );
        lemma_labels_key_injective(ls1.drop_first(), ls2.drop_first());
        assert(ls1 =~= seq![ls1[0]] + ls1.drop_first());
        assert(ls2 =~= seq![ls2[0]] + ls2.drop_first());
    }
}

/// Names are filed under different keys: two names share a key only when they have
/// the same labels, byte for byte, and the same fully-qualified flag. So an entry
/// decides only the name it was made for.
pub proof fn law_name_key_injective(n1: NameView, n2: NameView)
    requires
        spec_name_key(n1) == spec_name_key(n2),
    ensures
        n1 == n2,
{
    let k = spec_name_key(n1);
    assert(k[0] == spec_name_key(n2)[0]);
    assert(n1.1 == n2.1);
    assert(labels_key(n1.0) =~= k.subrange(1, k.len() as int));
    assert(labels_key(n2.0) =~= spec_name_key(n2).subrange(1, k.len() as int));
    lemma_labels_key_injective(n1.0, n2.0);
}

/// The label `*`.
pub open spec fn star() -> Seq<u8> {
    seq![42u8]
}

/// The wildcard that covers the last `i` labels of `n`: `*` and those labels, fully qualified.
pub open spec fn wildcard(n: NameView, i: int) -> NameView {
    (seq![star()] + n.0.subrange(n.0.len() - i, n.0.len() as int), true)
}

/// The wildcards tried for `n`, the most specific first: one for each `i` from
/// `labels - 1` down to `depth`.
pub open spec fn spec_wildcards(n: NameView, depth: int) -> Seq<NameView> {
    Seq::new(
        if n.0.len() > depth {
            (n.0.len() - depth) as nat
        } else {
            0nat
        },
        |k: int| wildcard(n, n.0.len() - 1 - k),
    )
}

/// The names looked up for `n`: `n` itself, then its wildcards when wildcard matching is on.
pub open spec fn spec_match_list(n: NameView, wildcard_match: bool, depth: int) -> Seq<NameView> {
    if wildcard_match {
        seq![n] + spec_wildcards(n, depth)
    } else {
        seq![n]
    }
}

/// The disposition of the first of `names` that `table` holds an entry for.
pub open spec fn first_match(table: Map<Seq<char>, HostDisposition>, names: Seq<NameView>) -> Option<
    HostDisposition,
>
    decreases names.len(),
{
    if names.len() == 0 {
        None
    } else if table.contains_key(spec_name_key(names[0])) {
        Some(table[spec_name_key(names[0])])
    } else {
        first_match(table, names.drop_first())
    }
}

fn push_escaped_label(key: &mut String, l: &Vec<u8>)
    ensures
        final(key)@ == old(key)@ + escape_label(l@),
{
    let mut j: usize = 0;
    while j < l.len()
        invariant
            j <= l.len(),
            key@ == old(key)@ + escape_label(l@.subrange(0, j as int)),
        decreases l.len() - j,
    {
        let b = l[j];
        let ghost before = key@;
        if b == 46u8 || b == 92u8 {
            push_char(key, '\\');
        }
        push_char(key, b as char);
        proof {
            assert(l@.subrange(0, j + 1).drop_last() =~= l@.subrange(0, j as int));
            assert(key@ =~= before + escape_byte(b));
        }
        j = j + 1;
    }
    assert(l@.subrange(0, l.len() as int) =~= l@);
}

/// The key of the name made of `prefix` (when given) followed by `n.labels[from..]`,
/// with fully-qualified flag `fqdn`.
fn key_of(prefix: Option<&Vec<u8>>, labels: &Vec<Vec<u8>>, from: usize, fqdn: bool) -> (r: String)
    requires
        from <= labels.len(),
    ensures
        r@ == spec_name_key(
            (
                match prefix {
                    Some(p) => seq![p@],
                    None => Seq::<Seq<u8>>::empty(),
                } + label_views(labels@).subrange(from as int, labels.len() as int),
                fqdn,
            ),
        ),
{
    let ghost pre: Seq<Seq<u8>> = match prefix {
        Some(p) => seq![p@],
        None => Seq::<Seq<u8>>::empty(),
    };
    let ghost all = label_views(labels@);
    let mut key = String::new();
    push_char(&mut key, if fqdn { 'F' } else { 'R' });
    let ghost head = key@;
    match prefix {
        Some(p) => {
            push_escaped_label(&mut key, p);
            push_char(&mut key, '.');
            assert(seq![p@].drop_last() =~= Seq::<Seq<u8>>::empty());
            assert(labels_key(Seq::<Seq<u8>>::empty()) =~= Seq::<char>::empty());
            assert(labels_key(seq![p@]) =~= escape_label(p@) + seq!['.']);
            assert(key@ =~= head + labels_key(pre));
        },
        None => {
            assert(labels_key(Seq::<Seq<u8>>::empty()) =~= Seq::<char>::empty());
            assert(key@ =~= head + labels_key(pre));
        },
    }
    assert(key@ =~= head + labels_key(pre));
    let mut i = from;
    while i < labels.len()
        invariant
            from <= i <= labels.len(),
            all == label_views(labels@),
            key@ == head + labels_key(pre + all.subrange(from as int, i as int)),
        decreases labels.len() - i,
    {
        let ghost before = key@;
        push_escaped_label(&mut key, &labels[i]);
        push_char(&mut key, '.');
        proof {
            let s = pre + all.subrange(from as int, i + 1);
            assert(s.drop_last() =~= pre + all.subrange(from as int, i as int));
            assert(s.last() == labels@[i as int]@);
            assert(key@ =~= before + escape_label(labels@[i as int]@) + seq!['.']);
        }
        i = i + 1;
    }
    assert(head =~= seq![if fqdn { 'F' } else { 'R' }]);
    key
}

/// The key under which the blocklist files `n`.
pub fn name_key(n: &DnsName) -> (r: String)
    ensures
        r@ == spec_name_key(n@),
{
    let r = key_of(None, &n.labels, 0, n.fqdn);
    assert(Seq::<Seq<u8>>::empty() + label_views(n.labels@).subrange(0, n.labels.len() as int)
        =~= n@.0);
    r
}


/// The keys of the names looked up for `n`, in order.
pub open spec fn match_keys_of(n: NameView, wildcard_match: bool, depth: int) -> Seq<Seq<char>> {
    spec_match_list(n, wildcard_match, depth).map_values(|m: NameView| spec_name_key(m))
}

/// The disposition of the first key of `keys` that `table` holds.
pub open spec fn first_entry(table: Map<Seq<char>, HostDisposition>, keys: Seq<Seq<char>>) -> Option<
    HostDisposition,
>
    decreases keys.len(),
{
    if keys.len() == 0 {
        None
    } else if table.contains_key(keys[0]) {
        Some(table[keys[0]])
    } else {
        first_entry(table, keys.drop_first())
    }
}

/// The disposition that decides a query for `n`: that of the first name of its
/// match list that the table holds.
pub open spec fn spec_disposition(
    table: Map<Seq<char>, HostDisposition>,
    n: NameView,
    wildcard_match: bool,
    depth: int,
) -> Option<HostDisposition> {
    first_entry(table, match_keys_of(n, wildcard_match, depth))
}

/// The names of some hosts.
pub open spec fn host_names(hosts: Seq<SourceHost>) -> Seq<Seq<char>> {
    hosts.map_values(|h: SourceHost| h.name@)
}

/// The entries that `names` make, all with disposition `d`: one for each name
/// that hickory reads, filed under its key.
pub open spec fn name_table(names: Seq<Seq<char>>, d: HostDisposition) -> Map<
    Seq<char>,
    HostDisposition,
>
    decreases names.len(),
{
    if names.len() == 0 {
        Map::empty()
    } else {
        let m = name_table(names.drop_last(), d);
        match spec_lower_name(names.last()) {
            Some((_, ls, f)) => m.insert(spec_name_key((ls, f)), d),
            None => m,
        }
    }
}

/// The table that a reload builds: every blocked name as `Block`, then every allowed
/// name as `Allow`, an allowed name replacing a blocked one.
pub open spec fn reload_table(blocked: Seq<Seq<char>>, allowed: Seq<Seq<char>>) -> Map<
    Seq<char>,
    HostDisposition,
> {
    name_table(blocked, HostDisposition::Block).union_prefer_right(
        name_table(allowed, HostDisposition::Allow),
    )
}

/// The disposition that the records of one host give it: `Allow` if any of them
/// allows it, else `Block` if there is any, else none.
pub open spec fn record_disposition(records: Seq<SourceHost>) -> Option<HostDisposition> {
    if exists|i: int| 0 <= i < records.len() && records[i].disposition == HostDisposition::Allow {
        Some(HostDisposition::Allow)
    } else if records.len() > 0 {
        Some(HostDisposition::Block)
    } else {
        None
    }
}

/// The state of the blocklist seen as values.
pub struct BlocklistView {
    /// The entries, by name key.
    pub table: Map<Seq<char>, HostDisposition>,
    pub wildcard_match: bool,
    pub min_wildcard_depth: int,
    pub global_pause: bool,
    /// The clients (by address text) whose blocking is paused.
    pub paused_clients: Set<Seq<char>>,
}

impl BlocklistView {
    /// The disposition that decides a query for `n`.
    pub open spec fn disposition_of(self, n: NameView) -> Option<HostDisposition> {
        spec_disposition(self.table, n, self.wildcard_match, self.min_wildcard_depth)
    }

    /// Whether a query for `n` is blocked.
    pub open spec fn blocks(self, n: NameView) -> bool {
        self.disposition_of(n) == Some(HostDisposition::Block)
    }

    /// Whether blocking is paused for `client`.
    pub open spec fn paused_for(self, client: Seq<char>) -> bool {
        self.global_pause || self.paused_clients.contains(client)
    }

    /// What a query for `n` from `client` gets.
    pub open spec fn outcome(self, n: NameView, client: Seq<char>) -> SearchOutcome {
        if !self.blocks(n) {
            SearchOutcome::NotBlocked
        } else if self.paused_for(client) {
            SearchOutcome::PausedBlock
        } else {
            SearchOutcome::Blocked
        }
    }

    /// The state after the pause of `client` is turned on or off.
    pub open spec fn with_client_pause(self, client: Seq<char>, is_paused: bool) -> BlocklistView {
        BlocklistView {
            paused_clients: if is_paused {
                self.paused_clients.insert(client)
            } else {
                self.paused_clients.remove(client)
            },
            ..self
        }
    }

    /// The state after the global pause is turned on or off.
    pub open spec fn with_global_pause(self, is_paused: bool) -> BlocklistView {
        BlocklistView { global_pause: is_paused, ..self }
    }

    /// The state after one host's entry is brought up to date with its records.
    pub open spec fn with_host_records(self, n: NameView, records: Seq<SourceHost>) -> BlocklistView {
        BlocklistView {
            table: match record_disposition(records) {
                Some(d) => self.table.insert(spec_name_key(n), d),
                None => self.table.remove(spec_name_key(n)),
            },
            ..self
        }
    }

    /// Whether wildcard matching can be run: matching on needs a depth of at least one.
    pub open spec fn can_match(self) -> bool {
        self.wildcard_match ==> self.min_wildcard_depth >= 1
    }
}

/// What a query gets from the blocklist.
#[derive(PartialEq, Eq, Structural, Clone, Copy, Debug)]
pub enum SearchOutcome {
    /// The name is not blocked: the query goes on to the next authority.
    NotBlocked,
    /// The name is blocked: the query is answered NXDOMAIN and a block event is recorded.
    Blocked,
    /// The name is blocked but blocking is paused for this client: the query goes on to the
    /// next authority, and a block event is still recorded.
    PausedBlock,
}

/// The answer the blocklist gives to a lookup it decides: no records.
pub struct BlocklistLookup {}

impl BlocklistLookup {
    /// The answer holds no records.
    pub fn is_empty(&self) -> (r: bool)
        ensures
            r,
    {
        true
    }
}

/// A host name that hickory does not read as a name.
#[derive(Debug)]
pub struct InvalidHostName {
    pub name: String,
}

/// The blocklist: entries by name, wildcard settings and pause state.
pub struct BlocklistAuthority {
    blocklist: StringHashMap<HostDisposition>,
    wildcard_match: bool,
    min_wildcard_depth: u8,
    global_pause_active: bool,
    client_pause_active: StringHashSet,
}

impl View for BlocklistAuthority {
    type V = BlocklistView;

    closed spec fn view(&self) -> BlocklistView {
        BlocklistView {
            table: self.blocklist@,
            wildcard_match: self.wildcard_match,
            min_wildcard_depth: self.min_wildcard_depth as int,
            global_pause: self.global_pause_active,
            paused_clients: self.client_pause_active@,
        }
    }
}

/// The entries for `hosts`, all with disposition `d`.
fn table_of(hosts: &Vec<SourceHost>, d: HostDisposition) -> (m: StringHashMap<HostDisposition>)
    ensures
        m@ == name_table(host_names(hosts@), d),
{
    let mut m: StringHashMap<HostDisposition> = StringHashMap::new();
    let ghost names = host_names(hosts@);
    for i in 0..hosts.len()
        invariant
            names == host_names(hosts@),
            m@ == name_table(names.take(i as int), d),
    {
        match parse_lower_name(hosts[i].name.as_str()) {
            Some((_, n)) => {
                m.insert(name_key(&n), d);
            },
            None => {},
        }
        assert(names.take(i + 1).drop_last() =~= names.take(i as int));
        assert(names.take(i + 1).last() == hosts@[i as int].name@);
    }
    assert(names.take(hosts.len() as int) =~= names);
    m
}

impl BlocklistAuthority {
    /// An empty blocklist with the wildcard settings of `config`, nothing paused.
    pub fn new(config: &BlocklistConfig) -> (r: Self)
        ensures
            r@.table == Map::<Seq<char>, HostDisposition>::empty(),
            r@.wildcard_match == config.wildcard_match,
            r@.min_wildcard_depth == config.min_wildcard_depth,
            !r@.global_pause,
            r@.paused_clients == Set::<Seq<char>>::empty(),
    {
        BlocklistAuthority {
            blocklist: StringHashMap::new(),
            wildcard_match: config.wildcard_match,
            min_wildcard_depth: config.min_wildcard_depth,
            global_pause_active: false,
            client_pause_active: StringHashSet::new(),
        }
    }

    /// Replaces all entries: each blocked host that hickory reads becomes a `Block`
    /// entry, then each allowed one an `Allow` entry, which wins over a `Block` entry
    /// for the same name. Hosts hickory does not read are skipped.
    pub fn reload(&mut self, blocked_hosts: &Vec<SourceHost>, allowed_hosts: &Vec<SourceHost>)
        ensures
            final(self)@.table == reload_table(host_names(blocked_hosts@), host_names(allowed_hosts@)),
            final(self)@.wildcard_match == old(self)@.wildcard_match,
            final(self)@.min_wildcard_depth == old(self)@.min_wildcard_depth,
            final(self)@.global_pause == old(self)@.global_pause,
            final(self)@.paused_clients == old(self)@.paused_clients,
    {
        let mut blocked = table_of(blocked_hosts, HostDisposition::Block);
        let allowed = table_of(allowed_hosts, HostDisposition::Allow);
        blocked.union_prefer_right(allowed);
        self.blocklist = blocked;
    }

    /// Brings the entry of one host up to date with its records: `Allow` if any record
    /// allows it, `Block` if there are records and none allows it, no entry if there
    /// are none. A name that hickory does not read is refused and nothing changes.
    pub fn reload_host(&mut self, name: &str, host_records: &Vec<SourceHost>) -> (r: Result<
        (),
        InvalidHostName,
    >)
        ensures
            match spec_lower_name(name@) {
                None => r is Err && final(self)@ == old(self)@,
                Some((_, ls, f)) => r is Ok && final(self)@ == old(self)@.with_host_records(
                    (ls, f),
                    host_records@,
                ),
            },
            r matches Err(e) ==> e.name@ == name@,
    {
        let lower = match parse_lower_name(name) {
            Some((_, n)) => n,
            None => {
                return Err(InvalidHostName { name: name.to_string() });
            },
        };
        let mut any_allow = false;
        let mut i: usize = 0;
        while i < host_records.len()
            invariant
                i <= host_records.len(),
                any_allow <==> exists|j: int|
                    0 <= j < i && host_records@[j].disposition == HostDisposition::Allow,
            decreases host_records.len() - i,
        {
            if host_records[i].disposition == HostDisposition::Allow {
                any_allow = true;
            }
            i = i + 1;
        }
        let key = name_key(&lower);
        if any_allow {
            self.blocklist.insert(key, HostDisposition::Allow);
        } else if host_records.len() > 0 {
            self.blocklist.insert(key, HostDisposition::Block);
        } else {
            self.blocklist.remove(key.as_str());
        }
        Ok(())
    }

    /// Turns the global pause on or off.
    pub fn set_global_pause(&mut self, is_paused: bool)
        ensures
            final(self)@ == old(self)@.with_global_pause(is_paused),
    {
        self.global_pause_active = is_paused;
    }

    /// Turns the pause of one client (by address text) on or off.
    pub fn set_client_pause(&mut self, client: String, is_paused: bool)
        ensures
            final(self)@ == old(self)@.with_client_pause(client@, is_paused),
    {
        if is_paused {
            self.client_pause_active.insert(client);
        } else {
            self.client_pause_active.remove(client.as_str());
        }
    }

    /// Makes the clients of `clients` (by address text) the paused ones, and no other.
    pub fn set_paused_clients(&mut self, clients: &Vec<String>)
        ensures
            final(self)@ == (BlocklistView { paused_clients: views(clients@).to_set(), ..old(self)@ }),
    {
        let mut set = StringHashSet::new();
        let mut i: usize = 0;
        while i < clients.len()
            invariant
                i <= clients.len(),
                set@ == views(clients@.take(i as int)).to_set(),
            decreases clients.len() - i,
        {
            set.insert(clients[i].clone());
            i = i + 1;
            assert(views(clients@.take(i as int)) =~= views(clients@.take(i - 1)).push(clients@[i - 1]@));
            assert(set@ =~= views(clients@.take(i as int)).to_set()) by {
                vstd::seq_lib::lemma_seq_contains_after_push(views(clients@.take(i - 1)), clients@[i - 1]@, clients@[i - 1]@);
                assert forall|c: Seq<char>| set@.contains(c) == views(clients@.take(i as int)).to_set().contains(c) by {
                    if c != clients@[i - 1]@ {
                        vstd::seq_lib::lemma_seq_contains_after_push(views(clients@.take(i - 1)), clients@[i - 1]@, c);
                    }
                }
            }
        }
        assert(clients@.take(clients.len() as int) =~= clients@);
        self.client_pause_active = set;
    }

    /// The keys of the names looked up for `name`: its own, then those of its
    /// wildcards from the most specific on, when wildcard matching is on.
    fn match_keys(&self, name: &DnsName) -> (r: Vec<String>)
        requires
            self@.can_match(),
        ensures
            views(r@) == match_keys_of(name@, self@.wildcard_match, self@.min_wildcard_depth),
    {
        let mut keys: Vec<String> = Vec::new();
        keys.push(name_key(name));
        let ghost list = spec_match_list(name@, self@.wildcard_match, self@.min_wildcard_depth);
        if self.wildcard_match {
            let n = name.labels.len();
            let depth = self.min_wildcard_depth as usize;
            let star_label: Vec<u8> = vec![42u8];
            assert(star_label@ =~= star());
            let mut i = n;
            while i > depth
                invariant
                    n == name.labels.len(),
                    depth == self@.min_wildcard_depth,
                    star_label@ == star(),
                    depth <= n ==> depth <= i <= n,
                    depth > n ==> i == n,
                    keys@.len() == 1 + (n - i),
                    keys@[0]@ == spec_name_key(name@),
                    forall|k: int|
                        0 <= k < n - i ==> #[trigger] keys@[1 + k]@ == spec_name_key(
                            wildcard(name@, n - 1 - k),
                        ),
                decreases i,
            {
                i = i - 1;
                let key = key_of(Some(&star_label), &name.labels, n - i, true);
                proof {
                    assert(seq![star_label@] + label_views(name.labels@).subrange(
                        (n - i) as int,
                        n as int,
                    ) =~= wildcard(name@, i as int).0);
                }
                keys.push(key);
            }
            proof {
                let target = list.map_values(|m: NameView| spec_name_key(m));
                let w = spec_wildcards(name@, depth as int);
                assert(list =~= seq![name@] + w);
                assert(views(keys@).len() == target.len());
                assert forall|j: int| 0 <= j < target.len() implies views(keys@)[j] == target[j] by {
                    if j > 0 {
                        assert(keys@[1 + (j - 1)]@ == spec_name_key(
                            wildcard(name@, n - 1 - (j - 1)),
                        ));
                        assert(list[j] == w[j - 1]);
                    }
                }
            }
            assert(views(keys@) =~= list.map_values(|m: NameView| spec_name_key(m)));
        } else {
            assert(views(keys@) =~= list.map_values(|m: NameView| spec_name_key(m)));
        }
        keys
    }

    /// The disposition that decides a query for `name`.
    pub fn disposition(&self, name: &DnsName) -> (r: Option<HostDisposition>)
        requires
            self@.can_match(),
        ensures
            r == self@.disposition_of(name@),
    {
        let keys = self.match_keys(name);
        let ghost ks = views(keys@);
        let mut i: usize = 0;
        assert(ks.subrange(0, ks.len() as int) =~= ks);
        while i < keys.len()
            invariant
                i <= keys.len(),
                ks == views(keys@),
                ks == match_keys_of(name@, self@.wildcard_match, self@.min_wildcard_depth),
                first_entry(self@.table, ks) == first_entry(
                    self@.table,
                    ks.subrange(i as int, ks.len() as int),
                ),
            decreases keys.len() - i,
        {
            assert(ks.subrange(i as int, ks.len() as int).drop_first() =~= ks.subrange(
                i + 1,
                ks.len() as int,
            ));
            assert(ks[i as int] == keys@[i as int]@);
            assert(ks.subrange(i as int, ks.len() as int)[0] == ks[i as int]);
            match self.blocklist.get(keys[i].as_str()) {
                Some(d) => {
                    let ghost sub = ks.subrange(i as int, ks.len() as int);
                    assert(self@.table == self.blocklist@);
                    assert(self@.table.contains_key(sub[0]));
                    assert(first_entry(self@.table, sub) == Some(self@.table[sub[0]]));
                    return Some(*d);
                },
                None => {},
            }
            i = i + 1;
        }
        None
    }

    /// Whether a query for `name` is blocked: the entry that decides it is `Block`.
    pub fn is_blocked(&self, name: &DnsName) -> (r: bool)
        requires
            self@.can_match(),
        ensures
            r == self@.blocks(name@),
    {
        match self.disposition(name) {
            Some(HostDisposition::Block) => true,
            _ => false,
        }
    }

    /// Whether blocking is paused for `client`: globally, or for that client.
    pub fn is_paused(&self, client: &str) -> (r: bool)
        ensures
            r == self@.paused_for(client@),
    {
        self.global_pause_active || self.client_pause_active.contains(client)
    }

    /// What a query for `name` from `client` gets.
    /// A paused client is never answered NXDOMAIN, yet its blocked queries still count
    /// as block events; a name that is not blocked is never answered by the blocklist.
    pub fn search(&self, name: &DnsName, client: &str) -> (r: SearchOutcome)
        requires
            self@.can_match(),
        ensures
            r == self@.outcome(name@, client@),
    {
        if !self.is_blocked(name) {
            return SearchOutcome::NotBlocked;
        }
        if self.is_paused(client) {
            SearchOutcome::PausedBlock
        } else {
            SearchOutcome::Blocked
        }
    }
}

} // verus!

verus! {

/// Whether the text `t` reads, through hickory, as a name filed under `k`.
pub open spec fn reads_as_key(t: Seq<char>, k: Seq<char>) -> bool {
    match spec_lower_name(t) {
        Some((_, ls, f)) => spec_name_key((ls, f)) == k,
        None => false,
    }
}

proof fn lemma_first_entry_at(table: Map<Seq<char>, HostDisposition>, ks: Seq<Seq<char>>, k: int)
    requires
        0 <= k < ks.len(),
        forall|j: int| 0 <= j < k ==> !table.contains_key(#[trigger] ks[j]),
        table.contains_key(ks[k]),
    ensures
        first_entry(table, ks) == Some(table[ks[k]]),
    decreases k,
{
    if k > 0 {
        let rest = ks.drop_first();
        assert forall|j: int| 0 <= j < k - 1 implies !table.contains_key(#[trigger] rest[j]) by {
            assert(rest[j] == ks[j + 1]);
        }
        assert(!table.contains_key(ks[0]));
        lemma_first_entry_at(table, rest, k - 1);
    }
}

proof fn lemma_first_entry_none(table: Map<Seq<char>, HostDisposition>, ks: Seq<Seq<char>>)
    requires
        forall|j: int| 0 <= j < ks.len() ==> !table.contains_key(#[trigger] ks[j]),
    ensures
        first_entry(table, ks) is None,
    decreases ks.len(),
{
    if ks.len() > 0 {
        let rest = ks.drop_first();
        assert forall|j: int| 0 <= j < rest.len() implies !table.contains_key(#[trigger] rest[j]) by {
            assert(rest[j] == ks[j + 1]);
        }
        lemma_first_entry_none(table, rest);
    }
}

/// The entries of `name_table(names, d)` are exactly the keys that some of `names`
/// read as, each with disposition `d`.
pub proof fn lemma_name_table(names: Seq<Seq<char>>, d: HostDisposition, k: Seq<char>)
    ensures
        name_table(names, d).contains_key(k) <==> exists|i: int|
            0 <= i < names.len() && reads_as_key(#[trigger] names[i], k),
        name_table(names, d).contains_key(k) ==> name_table(names, d)[k] == d,
    decreases names.len(),
{
    if names.len() > 0 {
        let init = names.drop_last();
        lemma_name_table(init, d, k);
        if exists|i: int| 0 <= i < names.len() && reads_as_key(#[trigger] names[i], k) {
            let i = choose|i: int| 0 <= i < names.len() && reads_as_key(#[trigger] names[i], k);
            if i < names.len() - 1 {
                assert(init[i] == names[i]);
            }
        }
        if exists|i: int| 0 <= i < init.len() && reads_as_key(#[trigger] init[i], k) {
            let i = choose|i: int| 0 <= i < init.len() && reads_as_key(#[trigger] init[i], k);
            assert(names[i] == init[i]);
        }
    }
}

/// An allowed host wins over a blocked one: after a reload, every allowed host that
/// hickory reads has an `Allow` entry, whatever the blocked hosts hold.
pub proof fn law_allowed_host_wins_reload(blocked: Seq<Seq<char>>, allowed: Seq<Seq<char>>, i: int)
    requires
        0 <= i < allowed.len(),
        spec_lower_name(allowed[i]) is Some,
    ensures
        ({
            let (_, ls, f) = spec_lower_name(allowed[i]).unwrap();
            &&& reload_table(blocked, allowed).contains_key(spec_name_key((ls, f)))
            &&& reload_table(blocked, allowed)[spec_name_key((ls, f))] == HostDisposition::Allow
        }),
{
    let (_, ls, f) = spec_lower_name(allowed[i]).unwrap();
    let k = spec_name_key((ls, f));
    assert(reads_as_key(allowed[i], k));
    lemma_name_table(allowed, HostDisposition::Allow, k);
}

/// A blocked host that no allowed host names has a `Block` entry after a reload.
pub proof fn law_blocked_host_listed(blocked: Seq<Seq<char>>, allowed: Seq<Seq<char>>, i: int)
    requires
        0 <= i < blocked.len(),
        spec_lower_name(blocked[i]) is Some,
        forall|j: int|
            0 <= j < allowed.len() ==> !reads_as_key(
                #[trigger] allowed[j],
                spec_name_key(
                    (spec_lower_name(blocked[i]).unwrap().1, spec_lower_name(blocked[i]).unwrap().2),
                ),
            ),
    ensures
        ({
            let (_, ls, f) = spec_lower_name(blocked[i]).unwrap();
            &&& reload_table(blocked, allowed).contains_key(spec_name_key((ls, f)))
            &&& reload_table(blocked, allowed)[spec_name_key((ls, f))] == HostDisposition::Block
        }),
{
    let (_, ls, f) = spec_lower_name(blocked[i]).unwrap();
    let k = spec_name_key((ls, f));
    assert(reads_as_key(blocked[i], k));
    lemma_name_table(blocked, HostDisposition::Block, k);
    lemma_name_table(allowed, HostDisposition::Allow, k);
}

/// An entry for the name itself decides its queries, whatever its wildcards hold.
pub proof fn law_exact_entry_decides(v: BlocklistView, n: NameView)
    requires
        v.table.contains_key(spec_name_key(n)),
    ensures
        v.disposition_of(n) == Some(v.table[spec_name_key(n)]),
        v.blocks(n) <==> v.table[spec_name_key(n)] == HostDisposition::Block,
{
    let ks = match_keys_of(n, v.wildcard_match, v.min_wildcard_depth);
    assert(ks[0] == spec_name_key(n));
    lemma_first_entry_at(v.table, ks, 0);
}

/// A `Block` wildcard blocks the names under it, when wildcard matching is on and
/// neither the name itself nor a more specific wildcard has an entry.
pub proof fn law_wildcard_entry_blocks(v: BlocklistView, n: NameView, i: int)
    requires
        v.wildcard_match,
        v.min_wildcard_depth <= i < n.0.len(),
        v.table.contains_key(spec_name_key(wildcard(n, i))),
        v.table[spec_name_key(wildcard(n, i))] == HostDisposition::Block,
        !v.table.contains_key(spec_name_key(n)),
        forall|j: int|
            i < j < n.0.len() ==> !v.table.contains_key(#[trigger] spec_name_key(wildcard(n, j))),
    ensures
        v.blocks(n),
{
    let ks = match_keys_of(n, v.wildcard_match, v.min_wildcard_depth);
    let list = spec_match_list(n, v.wildcard_match, v.min_wildcard_depth);
    let k = n.0.len() - i;
    assert(list[k] == wildcard(n, n.0.len() - 1 - (k - 1)));
    assert(ks[k] == spec_name_key(wildcard(n, i)));
    assert forall|j: int| 0 <= j < k implies !v.table.contains_key(#[trigger] ks[j]) by {
        if j == 0 {
            assert(ks[0] == spec_name_key(n));
        } else {
            assert(list[j] == wildcard(n, n.0.len() - 1 - (j - 1)));
            assert(ks[j] == spec_name_key(wildcard(n, n.0.len() - j)));
        }
    }
    lemma_first_entry_at(v.table, ks, k);
}

/// A name with no entry, neither for itself nor (when wildcard matching is on) for any
/// of its wildcards, is never blocked.
pub proof fn law_unlisted_name_not_blocked(v: BlocklistView, n: NameView)
    requires
        !v.table.contains_key(spec_name_key(n)),
        v.wildcard_match ==> forall|j: int|
            v.min_wildcard_depth <= j < n.0.len() ==> !v.table.contains_key(
                #[trigger] spec_name_key(wildcard(n, j)),
            ),
    ensures
        v.disposition_of(n) is None,
        !v.blocks(n),
{
    let ks = match_keys_of(n, v.wildcard_match, v.min_wildcard_depth);
    let list = spec_match_list(n, v.wildcard_match, v.min_wildcard_depth);
    assert forall|j: int| 0 <= j < ks.len() implies !v.table.contains_key(#[trigger] ks[j]) by {
        if j == 0 {
            assert(ks[0] == spec_name_key(n));
        } else {
            assert(list[j] == wildcard(n, n.0.len() - 1 - (j - 1)));
            assert(ks[j] == spec_name_key(wildcard(n, n.0.len() - j)));
        }
    }
    lemma_first_entry_none(v.table, ks);
}

/// A host whose records include an allowing one is not blocked once its entry is
/// brought up to date.
pub proof fn law_allowed_records_unblock(v: BlocklistView, n: NameView, records: Seq<SourceHost>)
    requires
        exists|i: int| 0 <= i < records.len() && records[i].disposition == HostDisposition::Allow,
    ensures
        v.with_host_records(n, records).disposition_of(n) == Some(HostDisposition::Allow),
        !v.with_host_records(n, records).blocks(n),
{
    law_exact_entry_decides(v.with_host_records(n, records), n);
}

/// Pausing one client pauses exactly that client's blocking, and no pause changes what
/// is blocked.
pub proof fn law_client_pause(v: BlocklistView, client: Seq<char>, other: Seq<char>, n: NameView)
    ensures
        v.with_client_pause(client, true).paused_for(client),
        !v.global_pause ==> !v.with_client_pause(client, false).paused_for(client),
        other != client ==> v.with_client_pause(client, true).paused_for(other) == v.paused_for(
            other,
        ),
        v.with_client_pause(client, true).blocks(n) == v.blocks(n),
        v.with_client_pause(client, false).blocks(n) == v.blocks(n),
        v.with_global_pause(true).paused_for(other),
        v.with_global_pause(true).blocks(n) == v.blocks(n),
{
}

/// A paused client is never answered NXDOMAIN, and a query is reported as a block
/// (answered or paused) exactly when its name is blocked.
pub proof fn law_pause_outcome(v: BlocklistView, n: NameView, client: Seq<char>)
    ensures
        v.paused_for(client) ==> v.outcome(n, client) != SearchOutcome::Blocked,
        (v.outcome(n, client) != SearchOutcome::NotBlocked) == v.blocks(n),
{
}

} // verus!
