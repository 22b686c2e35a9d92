//! Reads question listings from a page of markup, turns them into questions with
//! their tags, and decides what a run stores: each question once, each tag once,
//! and links between them as far as a tag's occurrences on the page reach.
pub mod db;
pub mod coordinator;
pub mod dom;
pub mod error;
pub mod ingest;
pub mod laws;
pub mod models;
pub mod number;
pub mod pattern;
pub mod scraper;
pub mod source;
pub mod store;
pub mod tags;
pub mod text;
pub mod text_map;
