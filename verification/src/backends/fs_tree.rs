//! Building the root file system tree of the image.
pub mod dnf;
pub mod oci;

use vstd::prelude::*;

verus! {

/// What building a root tree gives.
#[derive(Debug, PartialEq, Eq)]
pub enum TreeOutput {
    /// A tarball at this path.
    Tarball(String),
    /// A directory at this path.
    Directory(String),
}

} // verus!
