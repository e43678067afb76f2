//! A recipe service core: stateless signed-token authorization and a
//! dual-store persistence engine that keeps relational metadata rows and
//! out-of-band payload blobs consistent through compensating actions.

pub mod auth;
pub mod engine;
pub mod recipe;
pub mod store;
pub mod token;
pub mod user;

use vstd::prelude::*;

verus! {

/// Largest number of rows a search may ask for in one request.
pub const MAX_SEARCH_LIMIT: i16 = 255;

/// Number of rows a search returns when the caller names no limit.
pub const DEFAULT_SEARCH_LIMIT: i16 = 100;

pub fn effective_search_limit(limit: Option<i16>) -> (r: i16)
    requires
        limit is Some ==> 0 <= limit.unwrap() <= MAX_SEARCH_LIMIT,
    ensures
        r == match limit {
            Some(l) => l,
            None => DEFAULT_SEARCH_LIMIT,
        },
{
    match limit {
        Some(l) => l,
        None => DEFAULT_SEARCH_LIMIT,
    }
}

} // verus!
