//! Client-side data-access layer for a hierarchical directory service:
//! request batching and deduplication, side-loaded reference resolution,
//! progressive entity loading, and merging of partial entity views.
//!
//! Network transport and JSON decoding are external collaborators; the
//! functions here consume and produce plain decoded values.

pub mod connection;
pub mod details;
pub mod dispatch;
pub mod merge;
pub mod model;
pub mod resolve;
pub mod strnum;
