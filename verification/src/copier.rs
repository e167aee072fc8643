//! Taking a file or a directory into the dotfiles directory.
//!
//! Copying goes down the tree that is copied. At each place the caller says
//! what is there and what is at the place it is to be copied to, and is told
//! what to do. Copying never writes over a file: it is for taking something
//! in once, not for keeping two trees alike.

use vstd::prelude::*;

verus! {

/// Why something could not be copied.
#[derive(Debug, Clone, Copy, PartialEq, Eq, Structural)]
pub enum CopyError {
    /// Something is in the way at the destination: a file where a file or
    /// a directory is to be, or a directory where a file is to be.
    DestinationExists,
}

/// What is copied at one place.
#[derive(Debug, Clone, Copy, PartialEq, Eq, Structural)]
pub enum Entry {
    File,
    Directory,
}

/// What is at the place that is copied to.
#[derive(Debug, Clone, Copy, PartialEq, Eq, Structural)]
pub enum Destination {
    Absent,
    File,
    Directory,
}

/// What to do at one place.
#[derive(Debug, Clone, Copy, PartialEq, Eq, Structural)]
pub enum CopyStep {
    /// Copy the file, byte for byte.
    CopyFile,
    /// Make the directory, with the directories above it that are missing,
    /// then copy each of its entries into it.
    MakeDirectory,
    /// Use the directory that is there and copy each entry into it.
    EnterDirectory,
}

/// What copying does at one place: a file is copied where nothing is and is
/// refused where anything is; a directory is made where nothing is, used
/// where one is, and refused where a file is.
pub open spec fn copy_rule(from: Entry, to: Destination) -> Result<CopyStep, CopyError> {
    match (from, to) {
        (Entry::File, Destination::Absent) => Ok(CopyStep::CopyFile),
        (Entry::Directory, Destination::Absent) => Ok(CopyStep::MakeDirectory),
        (Entry::Directory, Destination::Directory) => Ok(CopyStep::EnterDirectory),
        _ => Err(CopyError::DestinationExists),
    }
}

/// What to do where `from` is to be copied to a place at which `to` is, as
/// `copy_rule` says.
pub fn copy_step(from: Entry, to: Destination) -> (r: Result<CopyStep, CopyError>)
    ensures
        r == copy_rule(from, to),
{
    match from {
        Entry::File => match to {
            Destination::Absent => Ok(CopyStep::CopyFile),
            _ => Err(CopyError::DestinationExists),
        },
        Entry::Directory => match to {
            Destination::Absent => Ok(CopyStep::MakeDirectory),
            Destination::Directory => Ok(CopyStep::EnterDirectory),
            Destination::File => Err(CopyError::DestinationExists),
        },
    }
}

/// Copying writes over nothing: whatever is copied, a file at the
/// destination is refused, and a directory there is only ever entered.
pub proof fn lemma_copy_keeps_files(from: Entry, to: Destination)
    ensures
        to is File ==> copy_rule(from, to) == Err::<CopyStep, CopyError>(
            CopyError::DestinationExists,
        ),
        to is Directory ==> copy_rule(from, to) != Ok::<CopyStep, CopyError>(CopyStep::CopyFile)
            && copy_rule(from, to) != Ok::<CopyStep, CopyError>(CopyStep::MakeDirectory),
        copy_rule(from, to) is Ok <==> to is Absent || (from is Directory && to is Directory),
{
}

} // verus!
