//! Mirrors an HLS asset tree: maps asset URLs to paths under an output
//! directory, reads manifests, and plans which segments to fetch.

pub mod error;
pub mod location;
pub mod manifest;
pub mod mirror;
pub mod headers;
pub mod engine;
