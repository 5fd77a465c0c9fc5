//! Where the bank is kept.

use std::path::PathBuf;
use vstd::prelude::*;

verus! {

/// The name of the file that holds the bank, inside the data directory.
pub const DATA_FILE: &'static str = "prompts.json";

/// The place of the file that holds the bank.
pub struct Storage {
    data_path: PathBuf,
}

impl Storage {
    /// The path of the backing file.
    pub closed spec fn path(&self) -> PathBuf {
        self.data_path
    }

    /// A storage whose backing file lies at `data_path`.
    pub fn new(data_path: PathBuf) -> (storage: Storage)
        ensures
            storage.path() == data_path,
    {
        Storage { data_path }
    }

    /// The path of the backing file, to show it.
    pub fn data_file_path(&self) -> (path: &PathBuf)
        ensures
            *path == self.path(),
    {
        &self.data_path
    }
}

} // verus!
