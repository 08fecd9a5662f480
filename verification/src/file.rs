use vstd::prelude::*;

use crate::utils::{join_path, push_path};

verus! {

/// Where a download is written: the path, how much of it is there already, and whether it is
/// written over.
#[derive(Debug, Clone, PartialEq, Eq)]
pub struct FileDest {
    pub size: u64,
    pub path: String,
    pub overwrite: bool,
}

/// How the file of a destination is opened.
#[derive(Debug, Clone, Copy, PartialEq, Eq)]
pub struct OpenMode {
    pub append: bool,
    pub truncate: bool,
    pub write: bool,
    pub create: bool,
}

impl FileDest {
    /// The destination `filename` under `root`; `existing` is the length of the file where it
    /// exists already, which counts as downloaded unless it is to be written over.
    pub fn new(root: &str, filename: &str, overwrite: bool, existing: Option<u64>) -> (r: Self)
        ensures
            r.path@ == join_path(root@, filename@),
            r.overwrite == overwrite,
            r.size == match existing {
                Some(n) if !overwrite => n,
                _ => 0,
            },
    {
        let path = push_path(root, filename);
        let size = match existing {
            Some(n) => if !overwrite { n } else { 0 },
            None => 0,
        };
        FileDest { size, path, overwrite }
    }

    /// How to open the file: appended to, or truncated and written over.
    pub fn open_mode(&self) -> (r: OpenMode)
        ensures
            r.append == !self.overwrite,
            r.truncate == self.overwrite,
            r.write == self.overwrite,
            r.create,
    {
        OpenMode { append: !self.overwrite, truncate: self.overwrite, write: self.overwrite, create: true }
    }
}

} // verus!
