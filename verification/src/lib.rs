//! A content-addressed archive of research packets: the on-disk layout, the
//! hash subsystem, the metadata and location indexes, the idempotent
//! ingestion rules, the query-expression parser, and the envelopes of the
//! HTTP surface.  Reading and writing the disk, and serving HTTP, are the
//! caller's business: every function here computes over plain values.

pub mod api;
pub mod config;
pub mod git;
pub mod hash;
pub mod location;
pub mod metadata;
pub mod metrics;
pub mod query;
pub mod responses;
pub mod store;
pub mod strings;
pub mod upload;
pub mod utils;
