//! The error kinds that loading and querying can produce.  Parse errors are
//! fatal to the enclosing load: a malformed dump is a data-integrity failure,
//! not a condition to skip past.

use vstd::prelude::*;
use crate::title::TitleId;

verus! {

/// Everything that can go wrong while decoding a dump line, building a shard
/// or the ratings table, or validating a query's keyword set.
#[derive(Debug, Clone, Copy, PartialEq, Eq, Structural)]
pub enum Error {
    /// A line ended before all required fields were seen.
    UnexpectedEof,
    /// The identifier field does not have the `tt` + digits shape.
    InvalidIdentifier,
    /// The classification field is not a known token.
    InvalidClassification,
    /// The adult field is neither `0` nor `1`.
    InvalidAdultFlag,
    /// The start-year field is neither the sentinel nor a year.
    InvalidYear,
    /// The end-year field is neither the sentinel nor a year.
    InvalidEndYear,
    /// The runtime field is neither the sentinel nor a minute count.
    InvalidRuntime,
    /// A genre token is not part of the genre enumeration.
    InvalidGenre,
    /// The rating field is not a decimal with one fractional digit in range.
    InvalidRating,
    /// The vote-count field is not a non-negative integer.
    InvalidVoteCount,
    /// The same identifier was inserted twice into one shard or into the
    /// ratings table.
    DuplicateIdentifier(TitleId),
    /// Tokenizing the raw keyword input left nothing to search for.
    EmptyOrTooShortKeywordSet,
}

} // verus!
