//! Preprocessing of files into plain bytes for a text search: an adapter is
//! chosen for each file, run, and chosen again for each file that it yields,
//! until only plain files are left; the joined output is cached.
//!
//! - `matching`, `adapters`: what adapters say of themselves, and how the
//!   first that takes a file is found.
//! - `preproc`: the choice for one file, the run through nested files, and
//!   the run through the cache.
//! - `cache_key`: the key under which a file's output is cached.
//! - `laws`: what holds of all of this together.

pub mod adapters;
pub mod cache_key;
pub mod config;
pub mod error;
pub mod laws;
pub mod matching;
pub mod preproc;
pub mod preproc_cache;
pub mod recurse;
pub mod text;
