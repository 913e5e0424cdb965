//! A key-value store kept as one file per key under a data directory.
//!
//! Reading and writing the files is done by the application; the library
//! knows where the store lives and where each key's file is.
use vstd::prelude::*;
use crate::config::{join_path, path_join};

verus! {

broadcast use vstd::string::group_string_axioms;

/// A store rooted at a data directory.
pub struct Store {
    data_dir: String,
}

impl Store {
    /// The store's data directory.
    pub closed spec fn dir(&self) -> Seq<char> {
        self.data_dir@
    }

    /// The store rooted at `data_dir`.
    pub fn new(data_dir: &str) -> (s: Self)
        ensures
            s.dir() == data_dir@,
    {
        Store { data_dir: data_dir.to_string() }
    }

    /// The project-local store at `.ofa/data`.
    pub fn project() -> (s: Self)
        ensures
            s.dir() == ".ofa/data"@,
    {
        Self::new(".ofa/data")
    }

    /// The store at `.ofa/data` under the home directory `home`.
    pub fn in_home(home: &str) -> (s: Self)
        ensures
            s.dir() == path_join(home@, ".ofa/data"@),
    {
        let dir = join_path(home, ".ofa/data");
        Store { data_dir: dir }
    }

    /// The store's data directory.
    pub fn data_dir(&self) -> (d: &str)
        ensures
            d@ == self.dir(),
    {
        self.data_dir.as_str()
    }

    /// The file that holds the value of `key`.
    pub fn key_path(&self, key: &str) -> (p: String)
        ensures
            p@ == path_join(self.dir(), key@),
    {
        join_path(self.data_dir.as_str(), key)
    }
}

} // verus!
