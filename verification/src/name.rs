//! Domain names as the blocklist compares them, read through hickory's `LowerName`.

use vstd::prelude::*;
use hickory_server::proto::rr::LowerName;
use std::str::FromStr;

verus! {

/// A domain name as hickory's `LowerName` holds it: its labels, lower-cased,
/// from the leftmost to the rightmost, and whether it is fully qualified.
/// Two names are the same `LowerName` exactly when both parts are equal.
pub struct DnsName {
    pub labels: Vec<Vec<u8>>,
    pub fqdn: bool,
}

/// The mathematical form of a name: its labels and its fully-qualified flag.
pub type NameView = (Seq<Seq<u8>>, bool);

pub open spec fn label_views(labels: Seq<Vec<u8>>) -> Seq<Seq<u8>> {
    labels.map_values(|l: Vec<u8>| l@)
}

impl View for DnsName {
    type V = NameView;

    open spec fn view(&self) -> NameView {
        (label_views(self.labels@), self.fqdn)
    }
}

/// What `LowerName::from_str` makes of a text, when it accepts it: the text that
/// the name displays as, its labels, and whether it is fully qualified.
pub uninterp spec fn spec_lower_name(text: Seq<char>) -> Option<(Seq<char>, Seq<Seq<u8>>, bool)>;

/// Reads `text` with hickory's `LowerName::from_str` (IDNA, escapes, lower-casing,
/// length limits all hickory's). Trusted: the result is `spec_lower_name(text)`,
/// the displayed text taken with `to_string`, the labels with `iter`, the flag with
/// `is_fqdn`. Nothing is stated of which texts hickory accepts or what it makes of them.
#[verifier::external_body]
pub(crate) fn parse_lower_name(text: &str) -> (r: Option<(String, DnsName)>)
    ensures
        match r {
            Some((t, n)) => spec_lower_name(text@) == Some((t@, n@.0, n@.1)),
            None => spec_lower_name(text@) is None,
        },
{
    LowerName::from_str(text).ok().map(
        |n| (n.to_string(), DnsName { labels: n.iter().map(|l| l.to_vec()).collect(), fqdn: n.is_fqdn() }),
    )
}

} // verus!
