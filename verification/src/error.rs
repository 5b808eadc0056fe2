//! The errors that grove's operations report.

use vstd::prelude::*;

verus! {

/// An error of a grove operation. Paths are carried as their text; the errors
/// that come from reading and writing files carry the underlying message.
#[derive(Debug)]
pub enum Error {
    NoConfigDir,
    ProjectExists(String),
    ProjectNotFound(String),
    PathNotFound(String),
    NotVcsRepo(String),
    NoProjectForPath(String),
    NoProjectDetected,
    InvalidEnvFormat(String),
    VcsCommandFailed(String),
    JjNotInstalled,
    InvalidVcsOverride(String),
    WorktreePathExists(String),
    WorktreeNotFound(String),
    InvalidWorktreeName(String),
    AmbiguousWorktreeName(String, String),
    InvalidProjectRef(String),
    WorktreeEnvNotFound(String, String),
    Io(String),
    TomlDeserialize(String),
    TomlSerialize(String),
    SerdeJson(String),
    NoDataDir,
    DatabaseCreationFailed(String),
    DatabaseDropFailed(String),
    SetupCommandFailed(String),
    HookFailed(String, String),
    EditorFailed(String, String),
}

/// The result of a grove operation.
pub type Result<T> = std::result::Result<T, Error>;

} // verus!
