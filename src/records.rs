//! Records that the launcher keeps outside the query path: indexed files and
//! the scratchpad. Their storage lives outside the library.

use vstd::prelude::*;

verus! {

/// An indexed file.
#[derive(Debug, Clone)]
pub struct FileEntry {
    pub id: String,
    pub name: String,
    pub path: String,
    pub extension: Option<String>,
    pub size_bytes: Option<i64>,
    pub modified_at: i64,
}

/// The scratchpad's text and when it last changed.
#[derive(Debug, Clone)]
pub struct Scratchpad {
    pub content: String,
    pub modified_at: i64,
}

} // verus!
