//! Metadata core of an S3-compatible gateway: the data model, the transactional
//! metadata store with its invariants, bucket-object listing, placement and the
//! decision logic of the request pipeline.

pub mod blob_store;
pub mod config;
pub mod error;
pub mod ids;
pub mod invariants;
pub mod laws;
pub mod listing;
pub mod meta_store;
pub mod model;
pub mod naming;
pub mod service;
pub mod store;
pub mod table;
