//! The changes that consolidate a package into the shared repository.
use vstd::prelude::*;
use crate::path::{join_path, joined};
use crate::registry::DedupKey;

verus! {

/// Something to be done.
#[derive(Clone, Debug, PartialEq, Eq)]
pub enum Instruction<'a> {
    /// Move the directory at `from_here` to the `to_here` location, and create a symbolic link
    /// located at `from_here` which points to `to_here` via the pre-computed `symlink_destination`
    MoveAndSymlink { from_here: &'a str, to_here: &'a str, symlink_destination: &'a str },
    /// Replace `this_directory` with a symbolic link at the same path via the pre-computed
    /// `symlink_destination`.
    ReplaceWithSymlink { this_directory: &'a str, symlink_destination: &'a str },
}

/// A version of `Instruction` which owns its paths.
#[derive(Clone, Debug, PartialEq, Eq)]
pub enum InstructionOwned {
    MoveAndSymlink { from_here: String, to_here: String, symlink_destination: String },
    ReplaceWithSymlink { this_directory: String, symlink_destination: String },
}

/// An instruction as values.
pub enum Change {
    MoveAndSymlink { from_here: Seq<char>, to_here: Seq<char>, symlink_destination: Seq<char> },
    ReplaceWithSymlink { this_directory: Seq<char>, symlink_destination: Seq<char> },
}

impl<'a> View for Instruction<'a> {
    type V = Change;

    open spec fn view(&self) -> Change {
        match *self {
            Instruction::MoveAndSymlink { from_here, to_here, symlink_destination } => Change::MoveAndSymlink {
                from_here: from_here@,
                to_here: to_here@,
                symlink_destination: symlink_destination@,
            },
            Instruction::ReplaceWithSymlink { this_directory, symlink_destination } => Change::ReplaceWithSymlink {
                this_directory: this_directory@,
                symlink_destination: symlink_destination@,
            },
        }
    }
}

impl View for InstructionOwned {
    type V = Change;

    open spec fn view(&self) -> Change {
        match self {
            InstructionOwned::MoveAndSymlink { from_here, to_here, symlink_destination } => Change::MoveAndSymlink {
                from_here: from_here@,
                to_here: to_here@,
                symlink_destination: symlink_destination@,
            },
            InstructionOwned::ReplaceWithSymlink { this_directory, symlink_destination } => Change::ReplaceWithSymlink {
                this_directory: this_directory@,
                symlink_destination: symlink_destination@,
            },
        }
    }
}

impl<'a> From<Instruction<'a>> for InstructionOwned {
    fn from(other: Instruction<'a>) -> (r: Self)
        ensures
            r@ == other@,
    {
        match other {
            Instruction::MoveAndSymlink { from_here, to_here, symlink_destination } => {
                InstructionOwned::MoveAndSymlink {
                    from_here: from_here.to_owned(),
                    to_here: to_here.to_owned(),
                    symlink_destination: symlink_destination.to_owned(),
                }
            },
            Instruction::ReplaceWithSymlink { this_directory, symlink_destination } => {
                InstructionOwned::ReplaceWithSymlink {
                    this_directory: this_directory.to_owned(),
                    symlink_destination: symlink_destination.to_owned(),
                }
            },
        }
    }
}

impl<'a> vstd::std_specs::convert::FromSpecImpl<Instruction<'a>> for InstructionOwned {
    open spec fn obeys_from_spec() -> bool {
        false
    }

    open spec fn from_spec(v: Instruction<'a>) -> Self {
        arbitrary()
    }
}

/// Where the canonical copy of the identity (`name`, `version`) lives in the
/// repository at `repo`: `<repo>/<name>/<version>`.
pub open spec fn destination_of(repo: Seq<char>, key: (Seq<char>, Seq<char>)) -> Seq<char> {
    joined(joined(repo, key.0), key.1)
}

/// The repository directory of the identity `key`, as `destination_of` describes.
pub fn destination(repo: &str, key: &DedupKey) -> (r: String)
    ensures
        r@ == destination_of(repo@, key@),
{
    let named = join_path(repo, key.name.as_str());
    join_path(named.as_str(), key.version.as_str())
}

/// The change that consolidates the copy at `source` into `destination`:
/// none where the copy is a symbolic link already (a consolidated copy), a
/// relink where the destination exists already, and a move otherwise.
pub open spec fn change_for(
    source: Seq<char>,
    destination: Seq<char>,
    source_is_symlink: bool,
    destination_exists: bool,
) -> Option<Change> {
    if source_is_symlink {
        None
    } else if destination_exists {
        Some(Change::ReplaceWithSymlink { this_directory: source, symlink_destination: destination })
    } else {
        Some(
            Change::MoveAndSymlink {
                from_here: source,
                to_here: destination,
                symlink_destination: destination,
            },
        )
    }
}

/// Decides the change for the copy at `source`, given what is on disk, as
/// `change_for` describes.
pub fn instruction_for<'a>(
    source: &'a str,
    destination: &'a str,
    source_is_symlink: bool,
    destination_exists: bool,
) -> (r: Option<Instruction<'a>>)
    ensures
        r is None <==> change_for(source@, destination@, source_is_symlink, destination_exists) is None,
        r matches Some(i) ==> change_for(source@, destination@, source_is_symlink, destination_exists)
            == Some(i@),
{
    if source_is_symlink {
        None
    } else if destination_exists {
        Some(Instruction::ReplaceWithSymlink { this_directory: source, symlink_destination: destination })
    } else {
        Some(
            Instruction::MoveAndSymlink {
                from_here: source,
                to_here: destination,
                symlink_destination: destination,
            },
        )
    }
}

} // verus!
