use vstd::prelude::*;

verus! {

/// The errors of the on-disk storage layer.  The storage itself (directories,
/// lock file, serialized files) is the front end's business; the core only
/// names its failure modes.
#[derive(Clone, Copy, PartialEq, Eq, Structural, Debug)]
pub enum StorageError {
    StorageAlreadyConnected,
    NoLockFile,
}

impl StorageError {
    /// A human-readable description of the error.
    pub fn message(&self) -> (r: &'static str)
        ensures
            *self == StorageError::StorageAlreadyConnected ==> r@
                == "A storage handler is already connected to the data"@,
            *self == StorageError::NoLockFile ==> r@ == "No lock file to remove"@,
    {
        match self {
            StorageError::StorageAlreadyConnected => {
                "A storage handler is already connected to the data"
            },
            StorageError::NoLockFile => "No lock file to remove",
        }
    }
}

} // verus!
