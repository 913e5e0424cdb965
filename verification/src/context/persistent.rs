//! The persistent value store.
use vstd::prelude::*;
use crate::strmap::StringMap;

verus! {

/// The value store kept in a TOML file in the configuration directory.
pub struct TomlStore;

impl TomlStore {
    /// A handle on the store.
    pub fn new() -> (s: Self) {
        TomlStore
    }
}

/// The values the persistent store gives in the current namespace: those
/// stored under the namespace, and, for keys the namespace lacks, those
/// stored under `global`.
pub fn namespace_values(namespace: StringMap<String>, global: StringMap<String>) -> (r: StringMap<
    String,
>)
    ensures
        r@ == global@.union_prefer_right(namespace@),
{
    let mut r = global;
    r.extend(namespace);
    r
}

} // verus!
