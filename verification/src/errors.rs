//! Error types of the mapping.

use vstd::prelude::*;
use crate::entry::{BonsaiGitMappingEntry, BonsaisOrGitShas};

verus! {

/// Why a piece of text was not accepted as a hash or as a hash prefix.
#[derive(Clone, Copy, Debug, PartialEq, Eq, Structural)]
pub enum ParseError {
    /// The bytes are not all ASCII; `valid_up_to` is the index of the first byte that is not.
    NotAscii { valid_up_to: usize },
    /// The input has `len` bytes, which is not a length that the target accepts.
    InvalidLength { len: usize },
    /// The byte at `position` is the first one that is not a hexadecimal digit.
    InvalidHex { position: usize },
}

/// A failure of the backend that holds the rows.
#[derive(Clone, Debug, PartialEq, Eq)]
pub struct StorageError {
    pub message: String,
}

/// Why rows were not added.
#[derive(Clone, Debug, PartialEq, Eq)]
pub enum AddGitMappingErrorKind {
    /// With the rows added, some changeset id or git hash would have two counterparts.
    /// Holds the rows that were to be added; none of them was.
    Conflict(Vec<BonsaiGitMappingEntry>),
    /// The backend failed.
    StorageError(StorageError),
}

/// Why a batch of ids was not converted.
#[derive(Clone, Debug, PartialEq, Eq)]
pub enum MappingError {
    /// The backend failed.
    StorageError(StorageError),
    /// Some of the ids that were asked for have no row. `ids` holds each of them once.
    MissingMapping { ids: BonsaisOrGitShas },
}

} // verus!
