//! The dictionary provider interface.

use vstd::prelude::*;

use crate::dict::entry::{DictEntry, DictError};

verus! {

/// Synchronous dictionary provider.
/// Implemented by all dictionary backends (file-based, user dict, etc.).
pub trait DictionaryProvider: Send + Sync {
    /// Looks up a headword with optional okurigana.
    /// Returns `None` if not found.
    fn lookup(&self, midashi: &str, okuri: Option<&str>) -> Option<DictEntry>;

    /// Records a confirmed conversion into the dictionary (learning).
    fn learn(&mut self, entry: DictEntry) -> Result<(), DictError>;

    /// Removes a single candidate (matched by `word`) from the dictionary.
    /// Returns `Ok(true)` if a candidate was removed, `Ok(false)` if no matching
    /// entry exists.  Read-only dictionaries return `Ok(false)` without error
    /// (the default implementation does so).
    fn purge(&mut self, _midashi: &str, _okuri: Option<&str>, _word: &str) -> (r: Result<bool, DictError>)
        default_ensures
            r matches Ok(false),
    {
        Ok(false)
    }

    /// Priority used when multiple providers are chained (higher = searched first).
    fn priority(&self) -> (r: i32)
        default_ensures
            r == 0,
    {
        0
    }

    /// Returns all okuri-nashi headwords that start with `prefix`,
    /// excluding `prefix` itself.  Order is implementation-defined.
    /// The default implementation returns an empty vec.
    fn complete(&self, _prefix: &str) -> (r: Vec<String>)
        default_ensures
            r@.len() == 0,
    {
        Vec::new()
    }
}

} // verus!
