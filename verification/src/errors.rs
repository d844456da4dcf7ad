//! The library's error type.

use vstd::prelude::*;

verus! {

/// Why an extraction call failed.
#[derive(Debug)]
pub enum ExtractError {
    /// A selector that a pipeline stage requires could not be parsed.
    Selector,
    /// The page or base URL is not a valid absolute URL.
    UrlParse,
    /// A required element (such as `body`) is missing.
    MissingElement,
}

impl ExtractError {
    /// A human-readable cause.
    pub fn message(&self) -> (r: &'static str)
        ensures
            (*self is Selector ==> r@ == "failed to parse selector"@),
            (*self is UrlParse ==> r@ == "failed to parse URL"@),
            (*self is MissingElement ==> r@ == "missing required element"@),
    {
        match self {
            ExtractError::Selector => "failed to parse selector",
            ExtractError::UrlParse => "failed to parse URL",
            ExtractError::MissingElement => "missing required element",
        }
    }
}

} // verus!
