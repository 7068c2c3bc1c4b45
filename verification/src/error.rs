//! What can go wrong during a scan.

use crate::enumerate::EntryKind;
use vstd::prelude::*;

verus! {

/// A file whose content could not be read to the end.
#[derive(Clone, Debug, PartialEq, Eq)]
pub struct IoError {
    pub path: String,
    pub cause: String,
}

impl View for IoError {
    type V = (Seq<char>, Seq<char>);

    open spec fn view(&self) -> (Seq<char>, Seq<char>) {
        (self.path@, self.cause@)
    }
}

/// An error that ends a scan.
#[derive(Clone, Debug, PartialEq, Eq)]
pub enum ScanError {
    /// The root of the scan is missing or is no directory.
    InvalidRoot { root: String },
    /// A file could not be read, and the scan was to stop at the first such file.
    Io(IoError),
}

/// Accepts the root of a scan if it is a directory.
pub fn validate_root(root: &str, kind: EntryKind) -> (outcome: Result<(), ScanError>)
    ensures
        outcome is Ok <==> kind == EntryKind::Directory,
        outcome matches Err(e) ==> e matches ScanError::InvalidRoot { root: named } && named@
            == root@,
{
    match kind {
        EntryKind::Directory => Ok(()),
        _ => Err(ScanError::InvalidRoot { root: root.to_owned() }),
    }
}

} // verus!
