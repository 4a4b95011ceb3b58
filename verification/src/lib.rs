//! A domain-scoped documentation crawler core: starting from one seed page,
//! it follows every same-domain hyperlink at most once and extracts from each
//! fetched page the set of help-tag anchors, encoded as fragment URLs.
//!
//! The crate holds the decisions of the crawl — URL normalization and
//! deduplication, domain-scoped link discovery, per-page extraction, and the
//! engine that turns fetched pages into extraction results and new work. The
//! HTTP transport and the final sink stay with the caller: it asks the engine
//! for the next pending URL, fetches it, and hands the page back.

pub mod engine;
pub mod scrape;
pub mod urls;
pub mod visited;
