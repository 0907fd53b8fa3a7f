//! The shapes of `ModelScope` repository listings.

use vstd::prelude::*;

verus! {

/// A `ModelScope` repository listing.
#[derive(Debug)]
pub struct ModelScopeResponse {
    pub code: i64,
    pub success: bool,
    pub message: String,
    pub data: Option<ModelScopeResponseData>,
}

/// The data of a listing.
#[derive(Debug)]
pub struct ModelScopeResponseData {
    pub files: Vec<RepoFile>,
}

/// One entry of a listing: a file, or a directory (`tree`).
#[derive(Debug)]
pub struct RepoFile {
    pub name: String,
    pub path: String,
    pub size: u64,
    pub sha256: String,
    pub file_type: String,
}

} // verus!
