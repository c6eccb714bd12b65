//! Where a package is installed.
use vstd::prelude::*;
use crate::path::{file_name, last_component, names_entry};

verus! {

/// An installed package: the directory holding its metadata, and the root
/// under which the packages installed beside it are found.
#[derive(Debug, Clone, PartialEq, Eq)]
pub struct PackageInfo {
    /// the directory containing the metadata document
    pub directory: String,
    /// the root directory at which all other installed packages are found
    pub root_directory: String,
}

/// A package location as values: its directory and its root directory.
pub struct Location {
    pub directory: Seq<char>,
    pub root_directory: Seq<char>,
}

impl View for PackageInfo {
    type V = Location;

    open spec fn view(&self) -> Location {
        Location { directory: self.directory@, root_directory: self.root_directory@ }
    }
}

impl PackageInfo {
    /// The name of the package's directory: its last path component.
    pub fn name(&self) -> (r: String)
        requires
            names_entry(self.directory@),
        ensures
            r@ == last_component(self.directory@),
    {
        file_name(self.directory.as_str())
    }

    /// A copy of this location.
    pub fn copy(&self) -> (r: PackageInfo)
        ensures
            r == *self,
    {
        PackageInfo { directory: self.directory.clone(), root_directory: self.root_directory.clone() }
    }
}

} // verus!
