//! The error taxonomy shared by every operation of the crate.

use vstd::prelude::*;

verus! {

/// Why an operation failed.  Every fatal error carries the name of the
/// offending shard, package, or path.
#[derive(Debug, PartialEq, Eq)]
pub enum ShardError {
    /// The named shard does not exist.
    NotFound(String),
    /// The shard name holds characters outside the allowed set.
    InvalidName(String),
    /// A shard of that name already exists.
    AlreadyExists(String),
    /// The shard is protected and the acting user is not allowed to touch it.
    Protected(String),
    /// An input (package name, tap name, option) failed validation.
    ValidationError(String),
    /// A manifest document could not be understood.
    ManifestError(String),
    /// The package-manager actuator reported a failure.
    BrewError(String),
    /// A package-level operation failed.
    PackageError(String),
    /// A filesystem operation failed at the given path.
    Filesystem(String),
    /// A backup could not be written; the destructive action it guards
    /// must not proceed.
    BackupError(String),
}

impl ShardError {
    /// The name or path the error is about.
    pub fn subject(&self) -> (r: &String)
        ensures
            r == match self {
                ShardError::NotFound(s) => s,
                ShardError::InvalidName(s) => s,
                ShardError::AlreadyExists(s) => s,
                ShardError::Protected(s) => s,
                ShardError::ValidationError(s) => s,
                ShardError::ManifestError(s) => s,
                ShardError::BrewError(s) => s,
                ShardError::PackageError(s) => s,
                ShardError::Filesystem(s) => s,
                ShardError::BackupError(s) => s,
            },
    {
        match self {
            ShardError::NotFound(s) => s,
            ShardError::InvalidName(s) => s,
            ShardError::AlreadyExists(s) => s,
            ShardError::Protected(s) => s,
            ShardError::ValidationError(s) => s,
            ShardError::ManifestError(s) => s,
            ShardError::BrewError(s) => s,
            ShardError::PackageError(s) => s,
            ShardError::Filesystem(s) => s,
            ShardError::BackupError(s) => s,
        }
    }
}

/// Result type used throughout the crate.
pub type ShardResult<T> = Result<T, ShardError>;

/// Verbosity selection for the logging layer that the surrounding
/// application builds.
#[derive(Debug, Clone, Copy, PartialEq, Eq, Structural)]
pub enum LogLevel {
    Error,
    Warn,
    Info,
    Debug,
    Trace,
}

impl LogLevel {
    /// Map a numeric verbosity (0 = quiet) to a level.
    pub fn from_verbosity(verbosity: u8) -> (r: LogLevel)
        ensures
            r == match verbosity {
                0u8 => LogLevel::Error,
                1u8 => LogLevel::Warn,
                2u8 => LogLevel::Info,
                3u8 => LogLevel::Debug,
                _ => LogLevel::Trace,
            },
    {
        match verbosity {
            0 => LogLevel::Error,
            1 => LogLevel::Warn,
            2 => LogLevel::Info,
            3 => LogLevel::Debug,
            _ => LogLevel::Trace,
        }
    }
}

} // verus!
