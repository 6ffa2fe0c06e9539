//! The records the daemon keeps: list sources and the hosts they hold.

use vstd::prelude::*;
use crate::text::{chars_of, str_eq};

verus! {

/// Whether a host is to be blocked or explicitly allowed.
#[derive(PartialEq, Eq, Structural, Clone, Copy, Debug)]
pub enum HostDisposition {
    Block,
    Allow,
}

/// A text that names no disposition.
#[derive(Debug)]
pub struct InvalidDisposition {
    pub value: String,
}

pub open spec fn block_text() -> Seq<char> {
    seq!['B', 'l', 'o', 'c', 'k']
}

pub open spec fn allow_text() -> Seq<char> {
    seq!['A', 'l', 'l', 'o', 'w']
}

impl HostDisposition {
    /// The name of the disposition: `Block` or `Allow`.
    pub open spec fn spec_as_str(self) -> Seq<char> {
        match self {
            HostDisposition::Block => block_text(),
            HostDisposition::Allow => allow_text(),
        }
    }

    /// The name of the disposition: `Block` or `Allow`.
    pub fn as_str(&self) -> (r: &'static str)
        ensures
            r@ == self.spec_as_str(),
    {
        proof {
            reveal_strlit("Block");
            reveal_strlit("Allow");
        }
        match self {
            HostDisposition::Block => "Block",
            HostDisposition::Allow => "Allow",
        }
    }

    /// The disposition that `s` names, exactly `Block` or `Allow`.
    pub open spec fn spec_from_str(s: Seq<char>) -> Option<HostDisposition> {
        if s == block_text() {
            Some(HostDisposition::Block)
        } else if s == allow_text() {
            Some(HostDisposition::Allow)
        } else {
            None
        }
    }

    /// Reads a disposition from its name; any other text is refused.
    pub fn from_str(s: &str) -> (r: Result<HostDisposition, InvalidDisposition>)
        ensures
            match r {
                Ok(d) => HostDisposition::spec_from_str(s@) == Some(d),
                Err(e) => HostDisposition::spec_from_str(s@) is None && e.value@ == s@,
            },
    {
        proof {
            reveal_strlit("Block");
            reveal_strlit("Allow");
            assert("Block"@ =~= block_text());
            assert("Allow"@ =~= allow_text());
        }
        if str_eq(s, "Block") {
            Ok(HostDisposition::Block)
        } else if str_eq(s, "Allow") {
            Ok(HostDisposition::Allow)
        } else {
            Err(InvalidDisposition { value: s.to_string() })
        }
    }
}

/// A point in time: nanoseconds since the Unix epoch, UTC.
pub type Timestamp = i128;

/// Nanoseconds in a second.
pub const NANOS_PER_SEC: i128 = 1_000_000_000;

/// The earliest instant the calendar can show: the start of year -262143.
pub open spec fn min_instant() -> int {
    -8334601315200000000000
}

/// The latest instant the calendar can show: the last nanosecond of year 262142.
pub open spec fn max_instant() -> int {
    8210266876799999999999
}

/// Whether `t` lies within the calendar's range.
pub open spec fn is_instant(t: int) -> bool {
    min_instant() <= t <= max_instant()
}

/// A list source: fetched from a URL, read from a file, or managed by hand
/// (neither URL nor path).
#[derive(Debug, PartialEq, Eq)]
pub struct Source {
    pub id: String,
    pub url: Option<String>,
    pub path: Option<String>,
    pub disposition: HostDisposition,
    pub created_at: Timestamp,
    pub updated_at: Timestamp,
}

/// The prefix that marks the sources the daemon makes for list files.
pub open spec fn file_prefix() -> Seq<char> {
    seq!['f', 'i', 'l', 'e', '-']
}

/// Whether `s` starts with `file-`.
pub open spec fn has_file_prefix(s: Seq<char>) -> bool {
    s.len() >= 5 && s.subrange(0, 5) == file_prefix()
}

/// Whether `s` starts with `file-`.
pub fn starts_with_file_prefix(s: &str) -> (r: bool)
    ensures
        r == has_file_prefix(s@),
{
    let v = chars_of(s);
    let r = v.len() >= 5 && v[0] == 'f' && v[1] == 'i' && v[2] == 'l' && v[3] == 'e' && v[4]
        == '-';
    assert(v.len() >= 5 ==> (r <==> v@.subrange(0, 5) =~= file_prefix()));
    r
}

impl Source {
    /// A source is managed from a list file when its id carries the `file-` prefix,
    /// which is reserved for such sources.
    pub open spec fn spec_is_file_managed(&self) -> bool {
        has_file_prefix(self.id@)
    }

    /// Whether the source is managed from a list file.
    pub fn is_file_managed(&self) -> (r: bool)
        ensures
            r == self.spec_is_file_managed(),
    {
        starts_with_file_prefix(self.id.as_str())
    }

    /// A copy of the source.
    pub fn duplicate(&self) -> (r: Source)
        ensures
            r == *self,
    {
        let url = match &self.url {
            Some(u) => Some(u.clone()),
            None => None,
        };
        let path = match &self.path {
            Some(p) => Some(p.clone()),
            None => None,
        };
        Source {
            id: self.id.clone(),
            url,
            path,
            disposition: self.disposition,
            created_at: self.created_at,
            updated_at: self.updated_at,
        }
    }

    /// A source is managed by hand when it has neither URL nor path.
    pub open spec fn spec_is_manual(&self) -> bool {
        self.url is None && self.path is None
    }

    /// Whether the source is managed by hand: it has neither URL nor path.
    pub fn is_manual(&self) -> (r: bool)
        ensures
            r == self.spec_is_manual(),
    {
        self.url.is_none() && self.path.is_none()
    }
}

/// A host entry of a source.
#[derive(Debug, PartialEq, Eq)]
pub struct SourceHost {
    pub name: String,
    pub source_id: String,
    pub disposition: HostDisposition,
    pub created_at: Timestamp,
    pub updated_at: Timestamp,
}

impl SourceHost {
    /// A copy of the entry.
    pub fn duplicate(&self) -> (r: SourceHost)
        ensures
            r == *self,
    {
        SourceHost {
            name: self.name.clone(),
            source_id: self.source_id.clone(),
            disposition: self.disposition,
            created_at: self.created_at,
            updated_at: self.updated_at,
        }
    }
}

} // verus!
