//! The library's error type.
use vstd::prelude::*;

verus! {

/// Errors of the search backend.
#[derive(Debug, Clone, PartialEq, Eq)]
pub enum GscholarError {
    /// Invalid configuration.
    Config(String),
    /// A request failed validation.
    Validation(String),
    /// A response could not be read.
    Parse(String),
    /// A database operation failed.
    Database(String),
    /// An upstream API answered with an error.
    Api { code: i32, message: String },
    /// An upstream API asked to wait this many seconds.
    RateLimited(u64),
}

/// A `Config` error whose message is `m`.
pub open spec fn is_config_error<T>(r: Result<T, GscholarError>, m: Seq<char>) -> bool {
    r matches Err(GscholarError::Config(s)) && s@ == m
}

/// A `Validation` error whose message is `m`.
pub open spec fn is_validation_error<T>(r: Result<T, GscholarError>, m: Seq<char>) -> bool {
    r matches Err(GscholarError::Validation(s)) && s@ == m
}

/// A `Parse` error whose message is `m`.
pub open spec fn is_parse_error<T>(r: Result<T, GscholarError>, m: Seq<char>) -> bool {
    r matches Err(GscholarError::Parse(s)) && s@ == m
}

} // verus!
