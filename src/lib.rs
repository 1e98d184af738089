//! Fetches pages of repository search results, merges the pages that
//! succeeded and orders the merged list by star count.
//!
//! The library holds the decisions of that pipeline: how a page is addressed,
//! which responses count as a page's failure, how the pages that succeeded are
//! merged and how the result is ordered and projected for output. Sending the
//! requests and serving the result are left to the caller.
pub mod aggregate;
pub mod page;
pub mod repository;
