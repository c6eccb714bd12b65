//! What can go wrong while packages are read and changed.
use vstd::prelude::*;
use crate::package::{Location, PackageInfo};

verus! {

/// Declares serde_json's decoding error, carried as the cause of a failure.
#[verifier::external_type_specification]
#[verifier::external_body]
pub struct ExJsonError(serde_json::Error);

/// Declares semver's parse error, carried as the cause of a failure.
#[verifier::external_type_specification]
#[verifier::external_body]
pub struct ExSemverError(semver::Error);

/// What the metadata document was expected to hold, and did not.
#[derive(Clone, Copy, Debug, PartialEq, Eq, Structural)]
pub enum Expectation {
    /// the top level is an object
    TopLevelObject,
    /// `version` is present and a string
    VersionString,
    /// `name` is present and a string
    NameString,
    /// `dependencies`, where present, is an object
    DependenciesObject,
    /// `devDependencies`, where present, is an object
    DevDependenciesObject,
    /// each requirement in a dependency map is a string
    RequirementString,
}

/// A failure tied to one package.
#[derive(Debug)]
pub enum PackageError {
    /// The metadata document at the given path could not be read, for the given reason.
    ReadPackageFile(String, String),
    /// The metadata document at the given path is not well-formed JSON.
    DecodeJson(String, serde_json::Error),
    /// The metadata document in the given directory is not shaped as expected.
    JsonStructure(String, Expectation),
    /// The package in the given directory has a version that is not strict semver.
    InvalidVersion(String, String, semver::Error),
    /// The package in the given directory has a requirement that cannot be parsed.
    InvalidVersionRequirement(String, String, semver::Error),
    /// The same package directory was reached a second time.
    DuplicatePackageInformation(PackageInfo),
    /// The visitor failed to carry out the change asked for the package in the given directory.
    VisitorFailure(String),
}

/// An error as values, without the causes that outside parsers attach.
pub enum Failure {
    ReadPackageFile { path: Seq<char>, reason: Seq<char> },
    DecodeJson { path: Seq<char> },
    JsonStructure { directory: Seq<char>, expectation: Expectation },
    InvalidVersion { directory: Seq<char>, version: Seq<char> },
    InvalidVersionRequirement { directory: Seq<char>, requirement: Seq<char> },
    DuplicatePackageInformation { package: Location },
    VisitorFailure { directory: Seq<char> },
}

impl View for PackageError {
    type V = Failure;

    open spec fn view(&self) -> Failure {
        match self {
            PackageError::ReadPackageFile(p, reason) => Failure::ReadPackageFile { path: p@, reason: reason@ },
            PackageError::DecodeJson(p, _) => Failure::DecodeJson { path: p@ },
            PackageError::JsonStructure(d, e) => Failure::JsonStructure { directory: d@, expectation: *e },
            PackageError::InvalidVersion(d, v, _) => Failure::InvalidVersion { directory: d@, version: v@ },
            PackageError::InvalidVersionRequirement(d, v, _) => Failure::InvalidVersionRequirement {
                directory: d@,
                requirement: v@,
            },
            PackageError::DuplicatePackageInformation(p) => Failure::DuplicatePackageInformation { package: p@ },
            PackageError::VisitorFailure(d) => Failure::VisitorFailure { directory: d@ },
        }
    }
}

/// The failures that a list of errors describes, in order.
pub open spec fn failures(errors: Seq<PackageError>) -> Seq<Failure> {
    errors.map_values(|e: PackageError| e@)
}

} // verus!
