//! Crawls an HTTP(S) server's auto-generated directory listings and sums the
//! byte sizes of the tree under a starting URL.  The parts that decide —
//! path normalization and the containment check that keeps the crawl inside
//! its subtree, extraction of child links from a listing page, the
//! redirect-following state machine, content negotiation, content-length
//! reading, and the fold of child sizes into subtotals — are verified here;
//! the transport that carries requests and responses sits outside, handing
//! these functions plain values.

use vstd::prelude::*;

pub mod aggregate;
pub mod content;
pub mod error;
pub mod listing;
pub mod paths;
pub mod redirect;

verus! {

/// Immutable crawl settings, created once from the command line and shared by
/// every task of a run.
pub struct Settings {
    /// Maximum number of redirects followed for one request; a negative value
    /// means the bound is not enforced.
    pub max_redirections: i64,
}

} // verus!
