//! Deduplication of installed package trees: discovers nested package
//! installations, groups them by name and version, and decides which copies
//! move into a shared repository and which become symbolic links to it.
//!
//! The library holds every decision; the caller performs the reads, looks
//! on disk for directories, carries out the changes, and hands back what it found.

pub mod dedup;
pub mod error;
pub mod instruction;
pub mod metadata;
pub mod package;
pub mod path;
pub mod registry;

pub use dedup::{hoisted_install, locate, own_install, Deduplication, Visitor};
pub use error::{Expectation, PackageError};
pub use instruction::{destination, instruction_for, Instruction, InstructionOwned};
pub use metadata::{read_dependencies, read_key, JsonMember, MetadataDocument};
pub use package::PackageInfo;
pub use path::{file_name, join_path};
pub use registry::{DedupKey, Dependency, PackageRecord, Registry};
