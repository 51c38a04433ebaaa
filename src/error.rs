//! Crawl errors.
use vstd::prelude::*;

verus! {

/// Why a fetch, or the handling of what it fetched, failed.
#[derive(Debug, Clone, PartialEq, Eq)]
pub enum SpiderError {
    /// The response status was outside the success range; the code is kept.
    HttpStatus(u16),
    /// An element handler failed; its message is kept.
    HandleErr(String),
    /// The transport failed (connection, decoding, reading the body).
    Unknown(String),
}

} // verus!
