//! Client-side core of a distributed job-execution system.
//!
//! The library holds the pieces that decide and compute: the directive-fold
//! metadata engine, the tri-valued pattern matcher, the dispatcher state
//! machine, the content-addressed artifact bookkeeping, the upload tracker,
//! and the on-disk table formats. All I/O lives outside the library.
pub mod client;
pub mod config;
pub mod digest_store;
pub mod directive;
pub mod dispatcher;
pub mod filter;
pub mod job;
pub mod layer_fs;
pub mod manifest;
pub mod metadata;
pub mod outside;
pub mod pattern;
pub mod pattern_parse;
pub mod test_db;
pub mod test_db_disk;
pub mod text;
pub mod toml_text;
pub mod upload;
