use vstd::prelude::*;

verus! {

/// Why collecting from a source failed.
#[derive(Debug)]
pub enum FeedError {
    /// A CSS selector (the text given) does not parse.
    InvalidSelector(String),
    /// A regular expression (the text given) does not compile.
    InvalidPattern(String),
    /// A link (the second text) cannot be resolved against a page address (the first).
    InvalidUrl(String, String),
}

} // verus!
