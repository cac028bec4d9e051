//! Bidirectional mapping between changeset ids and git commit hashes, one repository at a
//! time.
//!
//! `mapping` holds what a backend offers and what follows from it for every backend,
//! `memory` a backend over the table of `store`, and `laws` what holds of all of them.
//! `hash`, `nodehash`, `entry` and `extra` hold the identifiers, their prefixes, the rows and
//! the hashes that commits carry; `binary_protocol` writes and reads values as bytes.

pub mod binary_protocol;
pub mod bytes_order;
pub mod convert;
pub mod entry;
pub mod errors;
pub mod extra;
pub mod git_map;
pub mod hash;
pub mod hex;
pub mod laws;
pub mod mapping;
pub mod memory;
pub mod nodehash;
pub mod pushredirect;
pub mod store;
pub mod ttype;

pub use crate::entry::{BonsaiGitMappingEntry, BonsaisOrGitShas};
pub use crate::errors::{AddGitMappingErrorKind, MappingError, ParseError, StorageError};
pub use crate::extra::{
    extract_git_sha1_from_bonsai_extra, BonsaiChangeset, CONVERT_REVISION_EXTRA, HGGIT_SOURCE_EXTRA,
};
pub use crate::hash::{ChangesetId, GitSha1, RepositoryId};
pub use crate::mapping::BonsaiGitMapping;
pub use crate::memory::MemBonsaiGitMapping;
pub use crate::nodehash::{GitSha1Prefix, GitSha1sResolvedFromPrefix};
pub use crate::pushredirect::{PushRedirectionConfigEntry, RowId};
