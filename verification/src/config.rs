//! The settings that every work unit of one run shares.

use vstd::prelude::*;

verus! {

/// Settings of the cache.
#[derive(Debug)]
pub struct CacheConfig {
    /// No cache is used at all.
    pub disabled: bool,
    /// Output longer than this many bytes is not stored.
    pub max_blob_len: usize,
    /// How hard stored output is compressed.
    pub compression_level: i32,
}

#[derive(Debug)]
pub struct RgaConfig {
    /// Sniff each file's content type and match on it too.
    pub accurate: bool,
    /// The adapters to use, by name, in priority order; empty for the
    /// default set. Where the first name starts with `-`, the names are
    /// those of the adapters to leave out of the default set.
    pub adapters: Vec<String>,
    /// Archives nested this deep or deeper are not opened.
    pub max_archive_recursion: i32,
    pub cache: CacheConfig,
}

} // verus!
