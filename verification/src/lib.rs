//! A small timestamp ingestion and zone-conversion library.
//!
//! The library parses RFC 3339 timestamps with an explicit UTC offset into
//! absolute instants, keeps them in an append-only store, and renders them
//! back as RFC 3339 text in a caller-chosen IANA time zone. The calendar
//! arithmetic, the parser and the renderer are verified; only the IANA zone
//! database lookups are taken on trust from an outside crate.

pub mod calendar;
pub mod instant;
pub mod laws;
pub mod parse;
pub mod render;
pub mod service;
pub mod store;
pub mod zone;
