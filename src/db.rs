//! Persistence: the records that are stored, and the planning of the store's
//! batched merges.

pub mod models;
pub mod repository;
