use crate::types::{ChunkId, FileType};
use vstd::prelude::*;

verus! {

/// The catalog record of one stored file.
#[derive(Debug, Clone)]
pub struct FileMetadata {
    pub id: u128,
    pub name: String,
    /// Length of the stored (transformed) bytes.
    pub size: u64,
    /// Microseconds since the Unix epoch, UTC.
    pub created_at: i64,
    pub modified_at: i64,
    /// SHA-256 of the stored bytes, as lower-case hex.
    pub checksum: String,
    pub file_type: FileType,
    /// The chunks whose bytes, in this order, make up the stored bytes.
    pub chunk_ids: Vec<ChunkId>,
}

} // verus!
