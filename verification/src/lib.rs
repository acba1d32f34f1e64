//! Backs up and restores per-application user data according to a declarative
//! manifest of file and registry path patterns, with multiple backup
//! generations, differential storage, retention pruning, cross-subject
//! duplicate detection, and cancellable multi-subject orchestration.

pub mod cli;
pub mod dupes;
pub mod gui;
pub mod layout;
pub mod manifest;
pub mod matching;
pub mod orchestrate;
pub mod path;
pub mod scan;
pub mod strutil;

use vstd::prelude::*;

verus! {

/// Errors surfaced by the engine to its callers.
#[derive(Clone, Debug, PartialEq, Eq)]
pub enum Error {
    ManifestInvalid { why: String },
    ManifestCannotBeUpdated,
    CliUnrecognizedGames { games: Vec<String> },
    CliUnableToRequestConfirmation,
    CliBackupIdWithMultipleGames,
    CliInvalidBackupId,
    SomeEntriesFailed,
    RestorationSourceInvalid { path: String },
    CannotPrepareBackupTarget { path: String },
}

} // verus!
