//! A chunked file storage engine: chunking, type detection, compression,
//! encryption, caching, the metadata catalog and name index, deletion
//! planning, retry decisions and the text command format, each with its
//! contract.

pub mod chunk;
pub mod command;
pub mod crypto;
pub mod error;
pub mod ident;
pub mod storage;
pub mod types;

pub use error::{AppError, DaemonError, StorageError};
