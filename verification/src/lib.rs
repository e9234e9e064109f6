//! Contact discovery for a two-level web crawl.
//!
//! The library holds the rules of the crawl: which anchors of a page count as
//! links, how they are resolved against the page's address, which texts are
//! e-mail addresses, which links are phone numbers, and in which order pages are
//! asked for. Every function is verified against a contract stated over
//! sequences of characters. Fetching pages is left to the caller.

pub mod contacts;
pub mod crawl;
pub mod distinct;
pub mod links;
