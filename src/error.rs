use vstd::prelude::*;

verus! {

/// Why a provider's data could not be turned into contests. Any of these ends
/// the whole run: no partial result is kept.
#[derive(Debug, Clone, Copy, PartialEq, Eq, Structural)]
pub enum FetchError {
    /// The response is not a JSON document.
    MalformedJson,
    /// A JSON member is missing or has the wrong type.
    MissingField,
    /// A timestamp lies outside the range of instants that can be held.
    TimestampOutOfRange,
    /// A selector of the page layout does not parse.
    BadSelector,
    /// A table row lacks one of its expected elements.
    MissingElement,
    /// A start time on the page does not parse.
    BadStartTime,
}

} // verus!
