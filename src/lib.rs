//! Bounded incremental crawler over a remote workspace of pages and nested blocks.
//!
//! The crawl is split into step machines whose decisions are verified here; the
//! caller performs the network requests that a step asks for and feeds the
//! responses back in.
pub mod config;
pub mod crawl;
pub mod datatypes;
pub mod discovery;
pub mod fetcher;
pub mod locator;
pub mod render;
pub mod snapshot;
pub mod tree;
pub mod visited;
