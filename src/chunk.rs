//! Splitting a byte buffer into fixed-size chunks.
use crate::ident::fresh_id;
use crate::types::{Chunk, ChunkId};
use vstd::prelude::*;
use vstd::slice::{slice_subrange, slice_to_vec};

verus! {

/// The chunk size used unless another is configured: one mebibyte.
pub const DEFAULT_CHUNK_SIZE: usize = 1048576;

/// The SHA-256 digest of a byte sequence, written as 64 lower-case hex digits.
pub uninterp spec fn sha256_hex(data: Seq<u8>) -> Seq<char>;

/// Relies on sha2::Sha256 and the `LowerHex` format of its output: the
/// digest of the bytes, in hex.
#[verifier::external_body]
pub(crate) fn calculate_checksum(data: &[u8]) -> (r: String)
    ensures
        r@ == sha256_hex(data@),
        r@.len() == 64,
{
    format!("{:x}", <sha2::Sha256 as sha2::Digest>::digest(data))
}

/// The configuration of a chunker.
pub struct ChunkManager {
    chunk_size: usize,
}

impl ChunkManager {
    /// The size of the windows that the chunker cuts.
    pub closed spec fn chunk_size_spec(&self) -> nat {
        self.chunk_size as nat
    }
}

impl Default for ChunkManager {
    fn default() -> (r: Self)
        ensures
            r.chunk_size_spec() == DEFAULT_CHUNK_SIZE,
    {
        ChunkManager { chunk_size: DEFAULT_CHUNK_SIZE }
    }
}

/// Number of windows of `size` bytes (the last possibly shorter) that cover `len` bytes.
pub open spec fn chunk_count(len: nat, size: nat) -> nat
    recommends
        size > 0,
{
    if len == 0 {
        0
    } else {
        ((len - 1) as nat / size + 1) as nat
    }
}

/// The bytes of window `i` when `data` is cut in windows of `size` bytes.
pub open spec fn window(data: Seq<u8>, size: nat, i: int) -> Seq<u8> {
    let start = i * size;
    let end = if (i + 1) * size <= data.len() { (i + 1) * size } else { data.len() as int };
    data.subrange(start, end)
}

/// `chunks` is `data` cut in windows of `size` bytes, in order, each with
/// its length and checksum.
pub open spec fn cuts(data: Seq<u8>, size: nat, chunks: Seq<Chunk>) -> bool {
    &&& chunks.len() == chunk_count(data.len(), size)
    &&& forall|i: int|
        0 <= i < chunks.len() ==> {
            &&& #[trigger] chunks[i].data@ == window(data, size, i)
            &&& chunks[i].size == chunks[i].data@.len()
            &&& chunks[i].size <= size
            &&& chunks[i].checksum@ == sha256_hex(chunks[i].data@)
            &&& chunks[i].checksum@.len() == 64
        }
}

/// The bytes of the chunks, one after another.
pub open spec fn joined(chunks: Seq<Chunk>) -> Seq<u8>
    decreases chunks.len(),
{
    if chunks.len() == 0 {
        Seq::empty()
    } else {
        joined(chunks.drop_last()) + chunks.last().data@
    }
}

/// The sum of the chunks' sizes.
pub open spec fn total_size(chunks: Seq<Chunk>) -> nat
    decreases chunks.len(),
{
    if chunks.len() == 0 {
        0
    } else {
        total_size(chunks.drop_last()) + chunks.last().size as nat
    }
}

/// Cuts a byte buffer into chunks of fixed size.
pub struct FileChunker {
    config: ChunkManager,
}

impl FileChunker {
    pub closed spec fn chunk_size(&self) -> nat {
        self.config.chunk_size as nat
    }

    pub open spec fn wf(&self) -> bool {
        self.chunk_size() > 0
    }

    pub fn new(config: ChunkManager) -> (r: Self)
        requires
            config.chunk_size_spec() > 0,
        ensures
            r.wf(),
            r.chunk_size() == config.chunk_size_spec(),
    {
        FileChunker { config }
    }

    /// Cuts `data` into windows of the configured size, from offset 0; the
    /// last may be shorter, and empty input gives no chunk. Each chunk gets a
    /// fresh random identifier.
    pub fn chunk_data(&self, data: &[u8]) -> (r: Vec<Chunk>)
        requires
            self.wf(),
        ensures
            cuts(data@, self.chunk_size(), r@),
            joined(r@) == data@,
            total_size(r@) == data@.len(),
    {
        let size = self.config.chunk_size;
        let len = data.len();
        let mut chunks: Vec<Chunk> = Vec::new();
        let mut position: usize = 0;
        let mut count: usize = 0;
        while position < len
            invariant
                size > 0,
                len == data@.len(),
                position <= len,
                position < len ==> position == count * size,
                position == len ==> len <= count * size && count * size < len + size,
                chunks@.len() == count,
                forall|i: int|
                    0 <= i < chunks@.len() ==> {
                        &&& #[trigger] chunks@[i].data@ == window(data@, size as nat, i)
                        &&& chunks@[i].size == chunks@[i].data@.len()
                        &&& chunks@[i].size <= size
                        &&& chunks@[i].checksum@ == sha256_hex(chunks@[i].data@)
                        &&& chunks@[i].checksum@.len() == 64
                    },
                joined(chunks@) == data@.subrange(0, position as int),
                total_size(chunks@) == position,
            decreases len - position,
        {
            proof {
                assert(count <= count * size) by (nonlinear_arith)
                    requires size > 0;
            }
            let end: usize = if len - position > size { position + size } else { len };
            let piece = slice_subrange(data, position, end);
            let bytes = slice_to_vec(piece);
            let checksum = calculate_checksum(piece);
            let chunk = Chunk { id: ChunkId(fresh_id()), data: bytes, checksum, size: end - position };
            let ghost old_chunks = chunks@;
            chunks.push(chunk);
            proof {
                assert(chunks@.drop_last() == old_chunks);
                assert(data@.subrange(0, end as int) == data@.subrange(0, position as int)
                    + data@.subrange(position as int, end as int));
                assert((count + 1) * size == count * size + size) by (nonlinear_arith);
            }
            position = end;
            count = count + 1;
        }
        proof {
            assert(data@.subrange(0, len as int) == data@);
            lemma_count_of_cover(len as nat, size as nat, count as nat);
        }
        chunks
    }
}

proof fn lemma_count_of_cover(len: nat, size: nat, count: nat)
    requires
        size > 0,
        len <= count * size,
        count * size < len + size,
    ensures
        count == chunk_count(len, size),
{
    if len == 0 {
        assert(count * size < size);
        if count > 0 {
            assert(count * size >= size) by (nonlinear_arith)
                requires count > 0, size > 0;
        }
    } else {
        let k = (len - 1) as nat / size;
        assert(k * size <= (len - 1) as nat) by (nonlinear_arith)
            requires k == (len - 1) as nat / size, size > 0;
        assert(((len - 1) as nat) < (k + 1) * size) by (nonlinear_arith)
            requires k == (len - 1) as nat / size, size > 0;
        if count < k + 1 {
            assert(count * size <= k * size) by (nonlinear_arith)
                requires count <= k;
        } else if count > k + 1 {
            assert(count * size >= (k + 2) * size) by (nonlinear_arith)
                requires count >= k + 2;
            assert((k + 2) * size == (k + 1) * size + size) by (nonlinear_arith);
        }
    }
}

} // verus!
