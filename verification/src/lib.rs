//! Parses `robots.txt` exclusion files and answers, for a URL path, whether
//! crawling is allowed, denied, or unspecified.  The core is a pattern trie
//! over literal characters, `*` wildcards and end anchors, together with the
//! rule that selects which inserted pattern answers a query; around it stand
//! a line tokenizer, a user-agent group selector, a single-host engine, and
//! a facade that keeps one engine per host.

pub mod metabot;
pub mod nicebot;
pub mod selector;
pub mod singlebot;
pub mod text;
pub mod tokenize;
pub mod trie;
pub mod trie_laws;

pub use metabot::CheckError;
pub use metabot::MetaBot;
pub use nicebot::NiceBot;
pub use singlebot::SingleBot;
pub use trie::PrefixTrie;

use vstd::prelude::*;

verus! {

/// The permission a `robots.txt` policy gives for a path.
#[derive(Clone, Copy, PartialEq, Eq, Structural, Debug, Hash)]
pub enum Permission {
    /// Accessing the path is allowed.
    Allowed,
    /// Accessing the path is disallowed.
    Denied,
    /// No rule covers the path; accessing it is allowed.
    Unspecified,
}

impl Default for Permission {
    fn default() -> (r: Self)
        ensures
            r == Permission::Unspecified,
    {
        Permission::Unspecified
    }
}

} // verus!
