use vstd::prelude::*;

verus! {

/// Errors of the storage engine.
#[derive(Debug, Clone, PartialEq, Eq)]
pub enum StorageError {
    /// A filesystem error of the host, with its message.
    Io(String),
    /// A record, chunk, index file or name entry was absent.
    NotFound(String),
    /// An invariant violation, parse failure, codec failure or other engine error.
    Storage(String),
}

/// Errors of a background task host.
#[derive(Debug, Clone, PartialEq, Eq)]
pub enum DaemonError {
    TaskFailure(String),
    DaemonAlreadyExists,
    DaemonNotFound,
}

/// The error that encloses every error of the application.
#[derive(Debug, Clone, PartialEq, Eq)]
pub enum AppError {
    Storage(StorageError),
    Daemon(DaemonError),
    Other(String),
}

impl StorageError {
    /// The text of the error, as shown to a user.
    pub fn message(&self) -> (r: String)
        ensures
            r@ == self.message_spec(),
    {
        match self {
            StorageError::Io(m) => String::from_str("IO error: ").concat(m.as_str()),
            StorageError::NotFound(m) => String::from_str("File not found: ").concat(m.as_str()),
            StorageError::Storage(m) => String::from_str("Storage error: ").concat(m.as_str()),
        }
    }

    pub open spec fn message_spec(&self) -> Seq<char> {
        match self {
            StorageError::Io(m) => "IO error: "@ + m@,
            StorageError::NotFound(m) => "File not found: "@ + m@,
            StorageError::Storage(m) => "Storage error: "@ + m@,
        }
    }
}

} // verus!
