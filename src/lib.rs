//! Resolves a homebase specification (autonomous systems, organizations, host names
//! and literal addresses) into a deduplicated, filtered and optionally sorted list of
//! network prefixes, with a freshness-gated cache of the last result.

pub mod cidr;
pub mod pipeline;
pub mod token;
pub mod resolve;
pub mod dns;
pub mod cache;
