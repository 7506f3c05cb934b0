//! Transform-and-index pipeline for a tab-separated nutrition dataset.
//!
//! The library turns raw rows into validated entities, normalized country
//! codes, catalog lines and paginated index files, and contains the pure
//! decision logic of the static file responder.  All text is handled as
//! UTF-8 bytes; numbers are exact decimals.

pub mod textutil;
pub mod num;
pub mod country;
pub mod schema;
pub mod serving;
pub mod json;
pub mod entity;
pub mod index;
pub mod server;
pub mod catalog;
