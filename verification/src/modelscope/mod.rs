//! `ModelScope` cache and download helpers.

pub mod cache;
pub mod client;
pub mod download;
pub mod types;
