//! A resumable, concurrency-bounded image acquisition pipeline: a page-crawling
//! planner with checkpointed progress and retry/backoff, a content-addressed
//! deduplication engine, and a sequential multi-backend enrichment engine.
//!
//! Network and file-system work is performed by thin driver code outside this
//! library; everything here operates on plain values and carries contracts.

pub mod types;
pub mod text;
pub mod file_manager;
pub mod fetcher;
pub mod crawler;
pub mod dedup;
pub mod parser;
pub mod reverse_search;
pub mod store;
