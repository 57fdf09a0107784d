//! Ingestion library for hourly climate-station observation files: the record
//! parser with its quality gate, directory-listing and file-name rules, the
//! location filter, retry and scheduling decisions, and the planning and
//! accounting of idempotent batched upserts.

pub mod error;
pub mod text;
pub mod db;
pub mod parser;
pub mod config;
pub mod fetcher;
pub mod scheduler;
