//! A verified feed indexer core: plan a two-level crawl from parsed feed
//! documents, bound its concurrency by three-tier admission counters or a
//! fixed worker pool, merge every article's word counts into one shared
//! accumulator, finalize that accumulator into an immutable search index,
//! and answer case-folded term queries in a fixed presentation order.
//!
//! Fetching documents, tokenizing bodies and the interactive prompt are the
//! caller's outside work; this crate decides what to fetch, what to drop,
//! what each counter transition does, and what every query returns.
pub mod admission;
pub mod assoc;
pub mod crawl;
pub mod feed;
pub mod index;
pub mod pool;
pub mod query;
pub mod sync;
pub mod words;
