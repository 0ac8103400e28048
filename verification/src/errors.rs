//! Error types of the publication layer: configuration errors are fatal at
//! normalization time, key=value parse errors reject the malformed literal.
use vstd::prelude::*;

verus! {

/// A configuration rejected at normalization or validation time.
#[derive(Clone, Debug, PartialEq, Eq)]
pub enum ConfigError {
    /// A submission-strategy literal that is neither `all`, `quorum`, nor an
    /// unsigned integer. Carries the rejected literal.
    InvalidStrategy(String),
    /// A storage-scheme literal that names no known scheme. Carries the
    /// rejected literal.
    InvalidScheme(String),
    /// A maximum segment size of zero: no payload can be segmented under it.
    InvalidSegmentLimit,
    /// A submission round needs at least one configured backend.
    NoBackends,
}

/// A malformed comma-separated `key=value` list.
#[derive(Clone, Copy, Debug, PartialEq, Eq)]
pub enum KvParseError {
    /// A pair whose key is empty before the `=`.
    MissingKey,
    /// A pair without `=`, or whose key is only whitespace.
    MalformedPair,
}

} // verus!
