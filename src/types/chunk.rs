use vstd::prelude::*;

verus! {

/// The identifier of a chunk, a 128-bit value.
#[derive(Debug, Clone, Copy, PartialEq, Eq, Hash)]
pub struct ChunkId(pub u128);

/// A window of a file's stored bytes, with its checksum.
#[derive(Debug, Clone)]
pub struct Chunk {
    pub id: ChunkId,
    pub data: Vec<u8>,
    /// SHA-256 of `data`, as lower-case hex.
    pub checksum: String,
    pub size: usize,
}

} // verus!
