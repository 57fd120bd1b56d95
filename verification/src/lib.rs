//! A verified index/store engine for small text documents ("prompts").
//!
//! The library keeps a cached index of document metadata consistent with an
//! authoritative directory tree of text files, decides every index mutation
//! (create, update, delete, folder operations), and ranks index entries
//! against free-text queries.  All filesystem and serialization work is left
//! to the embedding application, which hands the library plain values.

use vstd::prelude::*;

pub mod model;
pub mod strutil;
pub mod index_service;
mod ids;
pub mod storage;
pub mod prompt_service;
pub mod search_service;
pub mod seed_service;
pub mod settings;

verus! {

/// Every fallible library operation reports its failure as an opaque message.
pub type AppResult<T> = Result<T, String>;

/// Turns any displayable error into the opaque message form used throughout.
pub fn map_err<E: std::fmt::Display>(e: E) -> String {
    e.to_string()
}

} // verus!
