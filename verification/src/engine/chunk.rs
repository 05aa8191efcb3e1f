//! The pieces of files that are embedded and stored.

use vstd::prelude::*;

verus! {

/// A piece of a file, with what is known of where it stands.
pub struct Chunk {
    /// The text that is embedded
    pub text: String,
    /// The path under which the file is stored in the index
    pub source_uri: String,
    pub source_type: String,
    pub catalog: String,
    pub content_hash: String,
    pub start_line: usize,
    pub end_line: usize,
    pub symbol_name: Option<String>,
    pub chunk_type: String,
    /// "content", "imports", "changelog" or "config"
    pub chunk_kind: String,
    pub breadcrumb: String,
    /// The ID of the file: sixteen hexadecimal digits
    pub file_id: String,
    /// The path relative to the catalog
    pub relative_path: String,
    /// The place in the file, counted from one
    pub chunk_number: usize,
    /// The number of chunks in the file
    pub chunk_count: usize,
}

} // verus!
