//! What can go wrong while a file is preprocessed.

use vstd::prelude::*;
use crate::adapters::AdaptError;
use crate::preproc_cache::CacheError;

verus! {

#[derive(Debug)]
pub enum PreprocError {
    /// The path hint has no final component to match on.
    EmptyFilename,
    /// The configuration names an adapter that is not registered.
    UnknownAdapter(String),
    /// The configuration leaves out an adapter, named here as configured,
    /// that is not in the default set or was left out already.
    CannotRemoveAdapter(String),
    /// No adapter takes the file at this path, and it may not be passed
    /// on as it is.
    NoAdapterFound(String),
    /// The adapter `adapter` failed on the file at `path`.
    AdapterFailed { path: String, adapter: String, cause: AdaptError },
    /// The file's cache key could not be written. The encoder does not fail
    /// on what a key is made of, so this does not arise.
    CacheKey,
    /// The cache failed to read or to write.
    Cache(CacheError),
}

} // verus!
