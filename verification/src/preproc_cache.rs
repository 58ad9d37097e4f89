//! The cache of preprocessed output.

use vstd::prelude::*;

verus! {

/// The failure of a cache to read or to write.
#[derive(Debug)]
pub struct CacheError {
    pub message: String,
}

/// A store of preprocessed output, in partitions, under keys. What `get`
/// returns is what `set` was given; how it is kept in between, compressed or
/// not, is the store's own business.
pub trait PreprocCache {
    /// Looks up what is stored in partition `db_name` under `key`.
    fn get(&self, db_name: &str, key: &[u8]) -> (r: Result<Option<Vec<u8>>, CacheError>);

    /// Stores `value` in partition `db_name` under `key`.
    fn set(&mut self, db_name: &str, key: &[u8], value: &[u8]) -> (r: Result<(), CacheError>);
}

/// The cache where there is none: it holds nothing and keeps nothing.
#[derive(Clone, Copy, Debug)]
pub struct NoCache;

impl PreprocCache for NoCache {
    fn get(&self, db_name: &str, key: &[u8]) -> (r: Result<Option<Vec<u8>>, CacheError>)
        ensures
            r matches Ok(None),
    {
        Ok(None)
    }

    fn set(&mut self, db_name: &str, key: &[u8], value: &[u8]) -> (r: Result<(), CacheError>)
        ensures
            r is Ok,
    {
        Ok(())
    }
}

} // verus!
