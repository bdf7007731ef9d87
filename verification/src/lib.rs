//! Verified core of ScholarLens: query building, feed parsing, result
//! de-duplication, relevance ordering, retry policy and access control.
pub mod error;
pub mod text;
pub mod digits;
pub mod markup;
pub mod arxiv;
pub mod llm;
pub mod retry;
pub mod admin_key;
pub mod api_keys;
pub mod providers;
pub mod temp_auth;
pub mod relevance;
