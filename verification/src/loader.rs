//! Where the JSON documents of the knowledge base are loaded from.

use vstd::prelude::*;

verus! {

/// The loader of the JSON documents under a directory.
pub struct Loader {
    data_dir: String,
}

impl Loader {
    /// The directory the loader reads.
    pub closed spec fn dir(&self) -> Seq<char> {
        self.data_dir@
    }

    /// A loader for the documents under `data_dir`.
    pub fn new(data_dir: &str) -> (res: Self)
        ensures
            res.dir() == data_dir@,
    {
        Loader { data_dir: String::from_str(data_dir) }
    }

    /// The directory the loader reads.
    pub fn data_dir(&self) -> (res: &str)
        ensures
            res@ == self.dir(),
    {
        self.data_dir.as_str()
    }
}

} // verus!
