//! Error types for identifier parsing and for the range reader.

use vstd::prelude::*;

verus! {

/// Failures while parsing a `gs://bucket/object` identifier.
#[derive(Debug, Clone, PartialEq, Eq)]
pub enum GCSObjectURIError {
    /// The identifier does not begin with the literal `gs://`.
    /// Carries the offending identifier.
    InvalidPrefix(String),
    /// The object segment is empty or absent.
    MissingObject,
    /// The bucket segment is empty.
    MissingBucket,
}

/// Failures while opening the reader or serving a read or seek call.
#[derive(Debug, Clone, PartialEq, Eq)]
pub enum GCSReaderError {
    /// The ambient credential mechanism could not produce a token.
    AuthError(String),
    /// A request could not be built or sent at all (no response came back).
    RequestError(String),
    /// A GET returned a non-success status; carries the status code and the
    /// response body.
    GetError(u16, String),
    /// The object's metadata held no usable decimal `size` field; carries the
    /// object's canonical identifier.
    GetSizeError(String),
    /// A seek aimed at a position outside `[0, u64::MAX]`; carries the
    /// attempted position.
    InvalidSeekPosition(i128),
    /// The identifier handed to `from_uri` did not parse.
    Uri(GCSObjectURIError),
}

} // verus!
