//! The error types of the surrounding application layers: the in-memory
//! store's errors, the local-file errors, and the web layer's errors with
//! their HTTP status mapping.

use vstd::prelude::*;

verus! {

/// Errors of the in-memory date store.
#[derive(Debug, PartialEq)]
pub enum ExogenesisError {
    FileReadError(String),
    FileWriteError(String),
    ReadLockFailed(String),
    WriteLockFailed(String),
}

impl ExogenesisError {
    /// The error's display text.
    pub fn message(&self) -> (r: String)
        ensures
            match self {
                ExogenesisError::FileReadError(s) => r@ == "Reading error: "@ + s@,
                ExogenesisError::FileWriteError(s) => r@ == "Writing error: "@ + s@,
                ExogenesisError::ReadLockFailed(s) => r@ == "Couldn't get a read lock at "@ + s@,
                ExogenesisError::WriteLockFailed(s) => r@ == "Couldn't get a write lock at "@ + s@,
            },
    {
        match self {
            ExogenesisError::FileReadError(s) => String::from_str("Reading error: ").concat(
                s.as_str(),
            ),
            ExogenesisError::FileWriteError(s) => String::from_str("Writing error: ").concat(
                s.as_str(),
            ),
            ExogenesisError::ReadLockFailed(s) => String::from_str(
                "Couldn't get a read lock at ",
            ).concat(s.as_str()),
            ExogenesisError::WriteLockFailed(s) => String::from_str(
                "Couldn't get a write lock at ",
            ).concat(s.as_str()),
        }
    }
}

/// Errors of the local-file handling around the codec.
#[derive(Debug, PartialEq)]
pub enum ExogenesisEnsembleLocalFileErrors {
    ReadingMetaDataError(String),
    FileNotFoundError(String),
    DirectoryMountFailed,
    FileCopyFailed,
    ExtensionParseFailed,
    FileError(String),
}

impl ExogenesisEnsembleLocalFileErrors {
    /// The error's display text.
    pub fn message(&self) -> (r: String)
        ensures
            match self {
                ExogenesisEnsembleLocalFileErrors::ReadingMetaDataError(s) => r@
                    == "Reading metadata error: "@ + s@,
                ExogenesisEnsembleLocalFileErrors::FileNotFoundError(s) => r@ == "File not found: "@
                    + s@,
                ExogenesisEnsembleLocalFileErrors::DirectoryMountFailed => r@
                    == "Directory mount failed"@,
                ExogenesisEnsembleLocalFileErrors::FileCopyFailed => r@ == "File already exists"@,
                ExogenesisEnsembleLocalFileErrors::ExtensionParseFailed => r@
                    == "Incorrect extension is provided"@,
                ExogenesisEnsembleLocalFileErrors::FileError(s) => r@ == s@,
            },
    {
        match self {
            ExogenesisEnsembleLocalFileErrors::ReadingMetaDataError(s) => String::from_str(
                "Reading metadata error: ",
            ).concat(s.as_str()),
            ExogenesisEnsembleLocalFileErrors::FileNotFoundError(s) => String::from_str(
                "File not found: ",
            ).concat(s.as_str()),
            ExogenesisEnsembleLocalFileErrors::DirectoryMountFailed => "Directory mount failed".to_owned(),
            ExogenesisEnsembleLocalFileErrors::FileCopyFailed => "File already exists".to_owned(),
            ExogenesisEnsembleLocalFileErrors::ExtensionParseFailed => "Incorrect extension is provided".to_owned(),
            ExogenesisEnsembleLocalFileErrors::FileError(s) => s.clone(),
        }
    }
}

/// Errors of the web route layer.
#[derive(Debug, PartialEq)]
pub enum WebApiAppError {
    ValidationError(String),
    StorageError(String),
    DBError(String),
}

impl WebApiAppError {
    /// The error's display text.
    pub fn message(&self) -> (r: String)
        ensures
            match self {
                WebApiAppError::ValidationError(s) => r@ == s@,
                WebApiAppError::StorageError(s) => r@ == "Storage error: "@ + s@,
                WebApiAppError::DBError(s) => r@ == "DB error: "@ + s@,
            },
    {
        match self {
            WebApiAppError::ValidationError(s) => s.clone(),
            WebApiAppError::StorageError(s) => String::from_str("Storage error: ").concat(
                s.as_str(),
            ),
            WebApiAppError::DBError(s) => String::from_str("DB error: ").concat(s.as_str()),
        }
    }

    /// The HTTP status this error is answered with: a validation error is
    /// the caller's fault, everything else a server failure.
    pub fn http_status(&self) -> (r: u16)
        ensures
            match self {
                WebApiAppError::ValidationError(_) => r == 400,
                WebApiAppError::StorageError(_) => r == 500,
                WebApiAppError::DBError(_) => r == 500,
            },
    {
        match self {
            WebApiAppError::ValidationError(_) => 400,
            WebApiAppError::StorageError(_) => 500,
            WebApiAppError::DBError(_) => 500,
        }
    }
}

} // verus!
