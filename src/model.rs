use vstd::prelude::*;

verus! {

/// A large blob with the commit that first brought it in.
pub struct LargeBlobInfo {
    pub oid: Vec<u8>,
    pub size: u64,
    pub path: String,
    pub first_author: String,
    pub first_date: i64,
}

/// Sizes summed over the files of one extension.
pub struct ExtensionStats {
    pub cumulative_size: u64,
    pub current_size: u64,
    pub file_count: u64,
}

/// A path that a search found, with its sizes.
pub struct SearchResult {
    pub path: String,
    pub cumulative_size: u64,
    pub current_size: u64,
}

} // verus!
