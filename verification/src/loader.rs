//! Where a domain list is loaded from.

use vstd::prelude::*;

verus! {

/// Where a domain list comes from: a URL or a local file.
pub enum DomainListSource {
    Web { url: String },
    Local { file: String },
}

/// Loads lists over HTTP or from the file system.
pub struct DefaultLoader {}

impl DefaultLoader {
    /// A loader.
    pub fn new() -> (r: DefaultLoader)
        ensures
            r == (DefaultLoader {}),
    {
        DefaultLoader {}
    }
}

} // verus!
