use crate::chunk::{calculate_checksum, cuts, joined, sha256_hex, ChunkManager, FileChunker};
use crate::crypto::encryption::{lemma_encryption_round_trip, EncryptionConfig};
use crate::error::StorageError;
use crate::ident::{fresh_id, hyphenated, id_text, now_micros};
use crate::storage::cache::{after_pop, after_put, lookup, CacheManager};
use crate::storage::compression::{gzip_of, lemma_compression_round_trip, CompressionManager};
use crate::types::file::detected_kind;
use crate::types::{Chunk, ChunkId, FileKind, FileMetadata, FileType, FileTypeDetector};
use vstd::prelude::*;
use vstd::slice::slice_to_vec;

verus! {

/// Directory under the base path that holds one metadata record per file.
pub const METADATA_DIR: &'static str = "metadata";

/// Directory under the base path that holds one file per chunk.
pub const CHUNKS_DIR: &'static str = "chunks";

/// File under the base path that holds the name index.
pub const NAME_INDEX_FILE: &'static str = "name_to_id.json";

/// The bytes of the parts, one after another.
pub open spec fn concat(parts: Seq<Vec<u8>>) -> Seq<u8>
    decreases parts.len(),
{
    if parts.len() == 0 {
        Seq::empty()
    } else {
        concat(parts.drop_last()) + parts.last()@
    }
}

/// The chunks' identifiers, in order.
pub open spec fn chunk_ids_of(chunks: Seq<Chunk>) -> Seq<ChunkId> {
    chunks.map_values(|c: Chunk| c.id)
}

/// A file ready to be written: its catalog record and its chunks.
pub struct StoredFile {
    pub metadata: FileMetadata,
    pub chunks: Vec<Chunk>,
}

/// The storage engine: the transform pipeline, chunking, the cache, and the
/// decisions of store, get and delete over the on-disk layout.
pub struct DiskStorage {
    base_path: String,
    chunker: FileChunker,
    encryption: Option<EncryptionConfig>,
    cache: Option<CacheManager>,
    compression: Option<CompressionManager>,
}

impl DiskStorage {
    pub closed spec fn wf(&self) -> bool {
        self.chunker.wf()
    }

    pub closed spec fn base_path_spec(&self) -> Seq<char> {
        self.base_path@
    }

    pub closed spec fn chunk_size(&self) -> nat {
        self.chunker.chunk_size()
    }

    pub closed spec fn compression_spec(&self) -> Option<CompressionManager> {
        self.compression
    }

    pub closed spec fn encryption_spec(&self) -> Option<EncryptionConfig> {
        self.encryption
    }

    pub closed spec fn cache_spec(&self) -> Option<CacheManager> {
        self.cache
    }

    /// `y` is `x` after the compression stage (the identity when absent).
    pub open spec fn compressed_by(&self, x: Seq<u8>, y: Seq<u8>) -> bool {
        match self.compression_spec() {
            Some(c) => c.compresses(x, y),
            None => y == x,
        }
    }

    /// `y` is `x` after the encryption stage (the identity when absent).
    pub open spec fn encrypted_by(&self, x: Seq<u8>, y: Seq<u8>) -> bool {
        match self.encryption_spec() {
            Some(e) => e.encrypts(x, y),
            None => y == x,
        }
    }

    /// `y` is `x` compressed, then encrypted.
    pub open spec fn processes(&self, x: Seq<u8>, y: Seq<u8>) -> bool {
        exists|m: Seq<u8>| self.compressed_by(x, m) && self.encrypted_by(m, y)
    }

    /// `y` is what a file of kind `k` with bytes `x` is stored as: `x`
    /// compressed and encrypted for documents and unknown files, `x` itself
    /// for images, videos and audio.
    pub open spec fn encodes(&self, k: FileKind, x: Seq<u8>, y: Seq<u8>) -> bool {
        if k.is_transformed() {
            self.processes(x, y)
        } else {
            y == x
        }
    }

    /// `x` after the compression stage.
    pub open spec fn compressed_spec(&self, x: Seq<u8>) -> Seq<u8> {
        match self.compression_spec() {
            Some(c) => if c.is_enabled() {
                gzip_of(x)
            } else {
                x
            },
            None => x,
        }
    }

    /// Compressing, then encrypting `x` succeeds: the encryption stage, where
    /// present, accepts the compressed bytes.
    pub open spec fn can_process(&self, x: Seq<u8>) -> bool {
        match self.encryption_spec() {
            Some(e) => e.accepts(self.compressed_spec(x)),
            None => true,
        }
    }

    /// Storing a file of kind `k` with bytes `x` succeeds.
    pub open spec fn can_encode(&self, k: FileKind, x: Seq<u8>) -> bool {
        !k.is_transformed() || self.can_process(x)
    }

    /// What decrypting then decompressing `y` gives, if both succeed.
    pub open spec fn deprocessed(&self, y: Seq<u8>) -> Option<Seq<u8>> {
        let d = match self.encryption_spec() {
            Some(e) => e.decrypted(y),
            None => Some(y),
        };
        match d {
            Some(m) => match self.compression_spec() {
                Some(c) => c.decompressed(m),
                None => Some(m),
            },
            None => None,
        }
    }

    /// What a file of kind `k` stored as `y` reads back as, if decoding succeeds.
    pub open spec fn decoded(&self, k: FileKind, y: Seq<u8>) -> Option<Seq<u8>> {
        if k.is_transformed() {
            self.deprocessed(y)
        } else {
            Some(y)
        }
    }

    /// The cache's entries after `id` is cached with `v` (no change without a cache).
    pub open spec fn cached_after_put(&self, old: Self, id: u128, v: Seq<u8>) -> bool {
        match (old.cache_spec(), self.cache_spec()) {
            (Some(c0), Some(c1)) => c1.entries() == after_put(c0.entries(), c0.capacity(), id, v)
                && c1.capacity() == c0.capacity(),
            (None, None) => true,
            _ => false,
        }
    }

    /// Everything but the cache is as in `old`.
    pub open spec fn same_config(&self, old: Self) -> bool {
        &&& self.wf() == old.wf()
        &&& self.base_path_spec() == old.base_path_spec()
        &&& self.chunk_size() == old.chunk_size()
        &&& self.compression_spec() == old.compression_spec()
        &&& self.encryption_spec() == old.encryption_spec()
    }

    /// `f` is a stored form of a file named `name` with bytes `x`: its type
    /// is detected from `x`, its stored bytes encode `x` and are cut into
    /// its chunks in order, and the record gives their size, checksum and
    /// identifiers.
    pub open spec fn stores(&self, name: Seq<char>, x: Seq<u8>, f: StoredFile) -> bool {
        let y = joined(f.chunks@);
        &&& f.metadata.name@ == name
        &&& f.metadata.file_type@ == detected_kind(x)
        &&& self.encodes(detected_kind(x), x, y)
        &&& cuts(y, self.chunk_size(), f.chunks@)
        &&& f.metadata.size == y.len()
        &&& f.metadata.checksum@ == sha256_hex(y)
        &&& f.metadata.checksum@.len() == 64
        &&& f.metadata.chunk_ids@ == chunk_ids_of(f.chunks@)
        &&& f.metadata.created_at == f.metadata.modified_at
    }

    /// An engine rooted at `base_path`, with the default chunk size and no
    /// compression, encryption or cache.
    pub fn new(base_path: &str) -> (r: Self)
        ensures
            r.wf(),
            r.base_path_spec() == base_path@,
            r.chunk_size() == crate::chunk::DEFAULT_CHUNK_SIZE,
            r.compression_spec() is None,
            r.encryption_spec() is None,
            r.cache_spec() is None,
    {
        DiskStorage {
            base_path: String::from_str(base_path),
            chunker: FileChunker::new(ChunkManager::default()),
            encryption: None,
            cache: None,
            compression: None,
        }
    }

    pub fn with_encryption(self, key: [u8; 32]) -> (r: Self)
        ensures
            r.wf() == self.wf(),
            r.base_path_spec() == self.base_path_spec(),
            r.chunk_size() == self.chunk_size(),
            r.compression_spec() == self.compression_spec(),
            r.cache_spec() == self.cache_spec(),
            r.encryption_spec() matches Some(e) && e.is_enabled() && e.key_spec() == key@,
    {
        DiskStorage { encryption: Some(EncryptionConfig::new(key)), ..self }
    }

    pub fn with_cache(self, cache_size: usize) -> (r: Self)
        requires
            cache_size > 0,
        ensures
            r.same_config(self),
            r.cache_spec() matches Some(c) && c.capacity() == cache_size && c.entries().len() == 0,
    {
        DiskStorage { cache: Some(CacheManager::new(cache_size)), ..self }
    }

    pub fn with_compression(self, enabled: bool) -> (r: Self)
        ensures
            r.wf() == self.wf(),
            r.base_path_spec() == self.base_path_spec(),
            r.chunk_size() == self.chunk_size(),
            r.encryption_spec() == self.encryption_spec(),
            r.cache_spec() == self.cache_spec(),
            r.compression_spec() matches Some(c) && c.is_enabled() == enabled,
    {
        DiskStorage { compression: Some(CompressionManager::new(enabled)), ..self }
    }

    pub fn base_path(&self) -> (r: String)
        ensures
            r@ == self.base_path_spec(),
    {
        self.base_path.clone()
    }

    /// The name of the file that holds a chunk: the chunk identifier's text.
    pub fn chunk_file_name(chunk_id: ChunkId) -> (r: String)
        ensures
            r@ == hyphenated(chunk_id.0),
    {
        id_text(chunk_id.0)
    }

    /// The name of the file that holds a metadata record: `<id>.json`.
    pub fn metadata_file_name(id: u128) -> (r: String)
        ensures
            r@ == hyphenated(id) + ".json"@,
    {
        id_text(id).concat(".json")
    }

    /// Compresses, then encrypts, each stage skipped where absent.
    pub fn process_data(&self, data: &[u8]) -> (r: Result<Vec<u8>, StorageError>)
        ensures
            r is Ok <==> self.can_process(data@),
            r matches Ok(y) ==> self.processes(data@, y@),
            r matches Err(e) ==> e is Storage,
    {
        let compressed = match &self.compression {
            Some(c) => c.compress(data)?,
            None => slice_to_vec(data),
        };
        let encrypted = match &self.encryption {
            Some(e) => e.encrypt(compressed.as_slice())?,
            None => compressed.clone(),
        };
        proof {
            assert(self.compressed_by(data@, compressed@));
            assert(self.encrypted_by(compressed@, encrypted@));
        }
        Ok(encrypted)
    }

    /// Decrypts, then decompresses, each stage skipped where absent.
    pub fn deprocess_data(&self, data: &[u8]) -> (r: Result<Vec<u8>, StorageError>)
        ensures
            r is Ok <==> self.deprocessed(data@) is Some,
            r matches Ok(x) ==> self.deprocessed(data@) == Some(x@),
            r matches Err(e) ==> e is Storage,
    {
        let decrypted = match &self.encryption {
            Some(e) => e.decrypt(data)?,
            None => slice_to_vec(data),
        };
        let decompressed = match &self.compression {
            Some(c) => c.decompress(decrypted.as_slice())?,
            None => decrypted,
        };
        Ok(decompressed)
    }

    /// Transforms a file's bytes by its type: documents and unknown files
    /// are compressed and encrypted; images, videos and audio are kept.
    pub fn process_file_by_type(&self, file_type: &FileType, data: &[u8]) -> (r: Result<
        Vec<u8>,
        StorageError,
    >)
        ensures
            r is Ok <==> self.can_encode(file_type@, data@),
            r matches Ok(y) ==> self.encodes(file_type@, data@, y@),
            r matches Err(e) ==> e is Storage,
    {
        if file_type.is_transformed() {
            self.process_data(data)
        } else {
            Ok(slice_to_vec(data))
        }
    }

    /// Undoes `process_file_by_type` for a file of the given type.
    pub fn deprocess_file_by_type(&self, file_type: &FileType, data: &[u8]) -> (r: Result<
        Vec<u8>,
        StorageError,
    >)
        ensures
            r is Ok <==> self.decoded(file_type@, data@) is Some,
            r matches Ok(x) ==> self.decoded(file_type@, data@) == Some(x@),
            r matches Err(e) ==> e is Storage,
    {
        if file_type.is_transformed() {
            self.deprocess_data(data)
        } else {
            Ok(slice_to_vec(data))
        }
    }

    /// Builds the stored form of a file: a fresh identifier, the detected
    /// type, the transformed bytes cut into chunks, and the catalog record
    /// with size and checksum of the transformed bytes. Nothing is written:
    /// the caller writes the chunks, then the record, then the name index.
    pub fn prepare_store(&self, name: &str, data: &[u8]) -> (r: Result<StoredFile, StorageError>)
        requires
            self.wf(),
        ensures
            r is Ok <==> self.can_encode(detected_kind(data@), data@),
            r matches Ok(f) ==> self.stores(name@, data@, f),
            r matches Err(e) ==> e is Storage,
    {
        let id = fresh_id();
        let file_type = FileTypeDetector::detect(data);
        let final_data = self.process_file_by_type(&file_type, data)?;
        let chunks = self.chunker.chunk_data(final_data.as_slice());
        let mut chunk_ids: Vec<ChunkId> = Vec::new();
        let mut i: usize = 0;
        while i < chunks.len()
            invariant
                i <= chunks@.len(),
                chunk_ids@ == chunk_ids_of(chunks@.subrange(0, i as int)),
            decreases chunks@.len() - i,
        {
            chunk_ids.push(chunks[i].id);
            i = i + 1;
            proof {
                assert(chunk_ids_of(chunks@.subrange(0, i as int)) =~= chunk_ids@);
            }
        }
        proof {
            assert(chunks@.subrange(0, chunks@.len() as int) == chunks@);
        }
        let now = now_micros();
        let metadata = FileMetadata {
            id,
            name: String::from_str(name),
            size: final_data.len() as u64,
            created_at: now,
            modified_at: now,
            checksum: calculate_checksum(final_data.as_slice()),
            file_type,
            chunk_ids,
        };
        Ok(StoredFile { metadata, chunks })
    }

    /// The cached bytes of a file, if the cache holds them; the entry
    /// becomes the most recently used.
    pub fn cached(&mut self, id: u128) -> (r: Option<Vec<u8>>)
        ensures
            final(self).same_config(*old(self)),
            old(self).cache_spec() is None ==> r is None && final(self).cache_spec() is None,
            old(self).cache_spec() matches Some(c0) ==> {
                &&& final(self).cache_spec() matches Some(c1)
                &&& c1.entries() == crate::storage::cache::after_get(c0.entries(), id)
                &&& c1.capacity() == c0.capacity()
                &&& (r matches Some(v) ==> crate::storage::cache::lookup(c0.entries(), id)
                    == Some(v@))
                &&& (r is None ==> crate::storage::cache::lookup(c0.entries(), id) is None)
            },
    {
        match &mut self.cache {
            Some(c) => c.get(id),
            None => None,
        }
    }

    /// Caches the decoded bytes of a file (nothing without a cache).
    pub fn remember(&mut self, id: u128, data: &[u8])
        ensures
            final(self).same_config(*old(self)),
            final(self).cached_after_put(*old(self), id, data@),
    {
        match &mut self.cache {
            Some(c) => c.put(id, slice_to_vec(data)),
            None => {},
        }
    }

    /// Drops a file from the cache (nothing without a cache).
    pub fn forget(&mut self, id: u128)
        ensures
            final(self).same_config(*old(self)),
            match (old(self).cache_spec(), final(self).cache_spec()) {
                (Some(c0), Some(c1)) => c1.entries() == after_pop(c0.entries(), id)
                    && c1.capacity() == c0.capacity() && lookup(c1.entries(), id) is None
                    && forall|k: u128| k != id ==> lookup(c1.entries(), k) == lookup(c0.entries(), k),
                (None, None) => true,
                _ => false,
            },
    {
        match &mut self.cache {
            Some(c) => c.invalidate(id),
            None => {},
        }
    }

    /// Reads a file back from the bytes of its chunks, given in the order of
    /// `metadata.chunk_ids`: they are joined, decoded by the file's type, and
    /// the result is cached.
    pub fn assemble_file(&mut self, metadata: &FileMetadata, parts: &Vec<Vec<u8>>) -> (r: Result<
        Vec<u8>,
        StorageError,
    >)
        requires
            parts@.len() == metadata.chunk_ids@.len(),
        ensures
            final(self).same_config(*old(self)),
            r is Ok <==> old(self).decoded(metadata.file_type@, concat(parts@)) is Some,
            r matches Ok(x) ==> old(self).decoded(metadata.file_type@, concat(parts@)) == Some(
                x@,
            ) && final(self).cached_after_put(*old(self), metadata.id, x@),
            r is Err ==> *final(self) == *old(self),
            r matches Err(e) ==> e is Storage,
    {
        let mut data: Vec<u8> = Vec::new();
        let mut i: usize = 0;
        while i < parts.len()
            invariant
                i <= parts@.len(),
                data@ == concat(parts@.subrange(0, i as int)),
            decreases parts@.len() - i,
        {
            let mut piece = slice_to_vec(parts[i].as_slice());
            data.append(&mut piece);
            proof {
                assert(parts@.subrange(0, i + 1).drop_last() == parts@.subrange(0, i as int));
            }
            i = i + 1;
        }
        proof {
            assert(parts@.subrange(0, parts@.len() as int) == parts@);
        }
        let out = self.deprocess_file_by_type(&metadata.file_type, data.as_slice())?;
        self.remember(metadata.id, out.as_slice());
        Ok(out)
    }
}

/// `chunk` is named by a record of the catalog other than the file `current`.
pub open spec fn used_by_others(chunk: ChunkId, current: u128, catalog: Seq<FileMetadata>) -> bool {
    exists|i: int|
        0 <= i < catalog.len() && catalog[i].id != current
            && #[trigger] catalog[i].chunk_ids@.contains(chunk)
}

/// `name` is the file name of a chunk that a record of the catalog names.
pub open spec fn referenced(catalog: Seq<FileMetadata>, name: Seq<char>) -> bool {
    exists|i: int, j: int|
        0 <= i < catalog.len() && 0 <= j < catalog[i].chunk_ids@.len() && name == hyphenated(
            #[trigger] catalog[i].chunk_ids@[j].0,
        )
}

/// The texts of a sequence of strings.
pub open spec fn texts(v: Seq<String>) -> Seq<Seq<char>> {
    v.map_values(|s: String| s@)
}

/// `removed` lists the chunks of `metadata` that no other record of the
/// catalog names, and each of them.
pub open spec fn removable(metadata: FileMetadata, catalog: Seq<FileMetadata>, removed: Seq<ChunkId>) -> bool {
    &&& forall|k: int|
        0 <= k < removed.len() ==> metadata.chunk_ids@.contains(#[trigger] removed[k])
            && !used_by_others(removed[k], metadata.id, catalog)
    &&& forall|c: ChunkId|
        metadata.chunk_ids@.contains(c) && !used_by_others(c, metadata.id, catalog)
            ==> #[trigger] removed.contains(c)
}

/// `orphans` lists the chunk files that no record of the catalog names, and
/// each of them.
pub open spec fn orphans_of(files: Seq<Seq<char>>, catalog: Seq<FileMetadata>, orphans: Seq<Seq<char>>) -> bool {
    &&& forall|k: int|
        0 <= k < orphans.len() ==> files.contains(#[trigger] orphans[k]) && !referenced(
            catalog,
            orphans[k],
        )
    &&& forall|f: Seq<char>| files.contains(f) && !referenced(catalog, f) ==> #[trigger] orphans.contains(f)
}

fn contains_text(v: &Vec<String>, s: &String) -> (r: bool)
    ensures
        r == texts(v@).contains(s@),
{
    let mut k: usize = 0;
    while k < v.len()
        invariant
            k <= v@.len(),
            forall|j: int| 0 <= j < k ==> v@[j]@ != s@,
        decreases v@.len() - k,
    {
        if v[k] == *s {
            assert(texts(v@)[k as int] == s@);
            return true;
        }
        k = k + 1;
    }
    proof {
        if texts(v@).contains(s@) {
            let j = choose|j: int| 0 <= j < texts(v@).len() && texts(v@)[j] == s@;
            assert(v@[j]@ == s@);
        }
    }
    false
}

fn contains_chunk(v: &Vec<ChunkId>, c: ChunkId) -> (r: bool)
    ensures
        r == v@.contains(c),
{
    let mut k: usize = 0;
    while k < v.len()
        invariant
            k <= v@.len(),
            forall|j: int| 0 <= j < k ==> v@[j] != c,
        decreases v@.len() - k,
    {
        if v[k].0 == c.0 {
            assert(v@[k as int] == c);
            return true;
        }
        k = k + 1;
    }
    false
}

impl DiskStorage {
    /// Whether a record of the catalog other than the file `current_file_id`
    /// names the chunk.
    pub fn is_chunk_used_by_others(
        chunk_id: ChunkId,
        current_file_id: u128,
        catalog: &Vec<FileMetadata>,
    ) -> (r: bool)
        ensures
            r == used_by_others(chunk_id, current_file_id, catalog@),
    {
        let mut i: usize = 0;
        while i < catalog.len()
            invariant
                i <= catalog@.len(),
                forall|k: int|
                    0 <= k < i ==> !(catalog@[k].id != current_file_id
                        && #[trigger] catalog@[k].chunk_ids@.contains(chunk_id)),
            decreases catalog@.len() - i,
        {
            if catalog[i].id != current_file_id && contains_chunk(&catalog[i].chunk_ids, chunk_id) {
                return true;
            }
            i = i + 1;
        }
        false
    }

    /// The chunks of a file that no other record of the catalog names: those
    /// that deleting the file removes.
    pub fn chunks_to_remove(metadata: &FileMetadata, catalog: &Vec<FileMetadata>) -> (r: Vec<ChunkId>)
        ensures
            removable(*metadata, catalog@, r@),
    {
        let mut out: Vec<ChunkId> = Vec::new();
        let mut i: usize = 0;
        while i < metadata.chunk_ids.len()
            invariant
                i <= metadata.chunk_ids@.len(),
                forall|k: int|
                    0 <= k < out@.len() ==> metadata.chunk_ids@.contains(#[trigger] out@[k])
                        && !used_by_others(out@[k], metadata.id, catalog@),
                forall|j: int|
                    0 <= j < i && !used_by_others(metadata.chunk_ids@[j], metadata.id, catalog@)
                        ==> out@.contains(#[trigger] metadata.chunk_ids@[j]),
            decreases metadata.chunk_ids@.len() - i,
        {
            let c = metadata.chunk_ids[i];
            if !Self::is_chunk_used_by_others(c, metadata.id, catalog) {
                let ghost before = out@;
                out.push(c);
                proof {
                    assert(out@[out@.len() - 1] == c);
                    assert forall|x: ChunkId| before.contains(x) implies out@.contains(x) by {
                        let k = choose|k: int| 0 <= k < before.len() && before[k] == x;
                        assert(out@[k] == x);
                    }
                }
            }
            i = i + 1;
        }
        proof {
            assert forall|c: ChunkId|
                metadata.chunk_ids@.contains(c) && !used_by_others(c, metadata.id, catalog@)
                    implies #[trigger] out@.contains(c) by {
                let j = choose|j: int| 0 <= j < metadata.chunk_ids@.len() && metadata.chunk_ids@[j] == c;
                assert(out@.contains(metadata.chunk_ids@[j]));
            }
        }
        out
    }

    /// The file names of every chunk that a record of the catalog names.
    fn referenced_names(catalog: &Vec<FileMetadata>) -> (r: Vec<String>)
        ensures
            forall|n: Seq<char>| texts(r@).contains(n) <==> referenced(catalog@, n),
    {
        let mut out: Vec<String> = Vec::new();
        let mut i: usize = 0;
        while i < catalog.len()
            invariant
                i <= catalog@.len(),
                forall|k: int| 0 <= k < out@.len() ==> referenced(catalog@, (#[trigger] out@[k])@),
                forall|a: int, b: int|
                    0 <= a < i && 0 <= b < catalog@[a].chunk_ids@.len() ==> texts(out@).contains(
                        hyphenated(#[trigger] catalog@[a].chunk_ids@[b].0),
                    ),
            decreases catalog@.len() - i,
        {
            let ids = &catalog[i].chunk_ids;
            let mut j: usize = 0;
            while j < ids.len()
                invariant
                    i < catalog@.len(),
                    ids == catalog@[i as int].chunk_ids,
                    j <= ids@.len(),
                    forall|k: int| 0 <= k < out@.len() ==> referenced(catalog@, (#[trigger] out@[k])@),
                    forall|a: int, b: int|
                        0 <= a < i && 0 <= b < catalog@[a].chunk_ids@.len() ==> texts(out@).contains(
                            hyphenated(#[trigger] catalog@[a].chunk_ids@[b].0),
                        ),
                    forall|b: int|
                        0 <= b < j ==> texts(out@).contains(
                            hyphenated(#[trigger] catalog@[i as int].chunk_ids@[b].0),
                        ),
                decreases ids@.len() - j,
            {
                let name = id_text(ids[j].0);
                let ghost before = out@;
                let ghost text = name@;
                out.push(name);
                proof {
                    assert(texts(out@)[out@.len() - 1] == hyphenated(catalog@[i as int].chunk_ids@[j as int].0));
                    assert forall|n: Seq<char>| texts(before).contains(n) implies texts(out@).contains(n) by {
                        let k = choose|k: int| 0 <= k < texts(before).len() && texts(before)[k] == n;
                        assert(texts(out@)[k] == n);
                    }
                    let _ = catalog@[i as int].chunk_ids@[j as int];
                    assert(referenced(catalog@, text));
                    assert forall|k: int| 0 <= k < out@.len() implies referenced(catalog@, (#[trigger] out@[k])@) by {
                        if k < before.len() {
                            assert(out@[k] == before[k]);
                        }
                    }
                }
                j = j + 1;
            }
            i = i + 1;
        }
        proof {
            assert forall|n: Seq<char>| texts(out@).contains(n) implies referenced(catalog@, n) by {
                let k = choose|k: int| 0 <= k < texts(out@).len() && texts(out@)[k] == n;
                assert(out@[k]@ == n);
            }
        }
        out
    }

    /// The chunk files that no record of the catalog names: what the orphan
    /// sweep removes.
    pub fn orphaned_chunks(chunk_files: &Vec<String>, catalog: &Vec<FileMetadata>) -> (r: Vec<String>)
        ensures
            orphans_of(texts(chunk_files@), catalog@, texts(r@)),
    {
        let refs = Self::referenced_names(catalog);
        let mut out: Vec<String> = Vec::new();
        let mut i: usize = 0;
        while i < chunk_files.len()
            invariant
                i <= chunk_files@.len(),
                forall|n: Seq<char>| texts(refs@).contains(n) <==> referenced(catalog@, n),
                forall|k: int|
                    0 <= k < out@.len() ==> texts(chunk_files@).contains(#[trigger] texts(out@)[k])
                        && !referenced(catalog@, texts(out@)[k]),
                forall|j: int|
                    0 <= j < i && !referenced(catalog@, chunk_files@[j]@) ==> texts(out@).contains(
                        #[trigger] chunk_files@[j]@,
                    ),
            decreases chunk_files@.len() - i,
        {
            let f = &chunk_files[i];
            if !contains_text(&refs, f) {
                let ghost before = out@;
                out.push(f.clone());
                proof {
                    assert(texts(chunk_files@)[i as int] == f@);
                    assert(texts(out@)[out@.len() - 1] == f@);
                    assert forall|n: Seq<char>| texts(before).contains(n) implies texts(out@).contains(n) by {
                        let k = choose|k: int| 0 <= k < texts(before).len() && texts(before)[k] == n;
                        assert(texts(out@)[k] == n);
                    }
                    assert forall|k: int| 0 <= k < out@.len() implies texts(chunk_files@).contains(
                        #[trigger] texts(out@)[k],
                    ) && !referenced(catalog@, texts(out@)[k]) by {
                        if k < before.len() {
                            assert(texts(out@)[k] == texts(before)[k]);
                        }
                    }
                }
            }
            i = i + 1;
        }
        proof {
            assert forall|f: Seq<char>|
                texts(chunk_files@).contains(f) && !referenced(catalog@, f) implies #[trigger] texts(
                out@,
            ).contains(f) by {
                let j = choose|j: int| 0 <= j < texts(chunk_files@).len() && texts(chunk_files@)[j] == f;
                assert(chunk_files@[j]@ == f);
            }
        }
        out
    }
}

/// Deleting a file accounts for each of its chunks: another record still
/// names it, or it is among the chunks removed.
pub proof fn lemma_delete_accounts_for_chunks(
    metadata: FileMetadata,
    catalog: Seq<FileMetadata>,
    removed: Seq<ChunkId>,
    c: ChunkId,
)
    requires
        removable(metadata, catalog, removed),
        metadata.chunk_ids@.contains(c),
    ensures
        used_by_others(c, metadata.id, catalog) || removed.contains(c),
{
}

/// After the orphan sweep, every chunk file left is named by a record: the
/// set of orphans is empty.
pub proof fn lemma_sweep_leaves_no_orphan(
    files: Seq<Seq<char>>,
    catalog: Seq<FileMetadata>,
    orphans: Seq<Seq<char>>,
    f: Seq<char>,
)
    requires
        orphans_of(files, catalog, orphans),
        files.contains(f),
        !orphans.contains(f),
    ensures
        referenced(catalog, f),
{
}

/// The chunks' bytes, given as parts in the order of the record, join to
/// the stored bytes.
proof fn lemma_parts_join(chunks: Seq<Chunk>, parts: Seq<Vec<u8>>)
    requires
        parts.len() == chunks.len(),
        forall|i: int| 0 <= i < parts.len() ==> (#[trigger] parts[i])@ == chunks[i].data@,
    ensures
        concat(parts) == joined(chunks),
    decreases parts.len(),
{
    if parts.len() > 0 {
        lemma_parts_join(chunks.drop_last(), parts.drop_last());
    }
}

/// A stored file, read back from the bytes of its chunks in the order of its
/// record, gives the bytes that were stored.
pub proof fn lemma_store_then_read(
    s: DiskStorage,
    name: Seq<char>,
    x: Seq<u8>,
    f: StoredFile,
    parts: Seq<Vec<u8>>,
)
    requires
        s.stores(name, x, f),
        parts.len() == f.chunks@.len(),
        forall|i: int| 0 <= i < parts.len() ==> (#[trigger] parts[i])@ == f.chunks@[i].data@,
    ensures
        s.decoded(f.metadata.file_type@, concat(parts)) == Some(x),
{
    lemma_parts_join(f.chunks@, parts);
    lemma_decode_inverts_encode(s, detected_kind(x), x, joined(f.chunks@));
}

/// The stored form of a file's bytes depends on the bytes and the
/// configuration alone.
proof fn lemma_encoding_unique(s: DiskStorage, k: FileKind, x: Seq<u8>, y1: Seq<u8>, y2: Seq<u8>)
    requires
        s.encodes(k, x, y1),
        s.encodes(k, x, y2),
    ensures
        y1 == y2,
{
    if k.is_transformed() {
        let m1 = choose|m: Seq<u8>| s.compressed_by(x, m) && s.encrypted_by(m, y1);
        let m2 = choose|m: Seq<u8>| s.compressed_by(x, m) && s.encrypted_by(m, y2);
        assert(m1 == m2);
    }
}

/// Two files stored with the same bytes, under any names, get the same checksum.
pub proof fn lemma_same_bytes_same_checksum(
    s: DiskStorage,
    name1: Seq<char>,
    name2: Seq<char>,
    x: Seq<u8>,
    f1: StoredFile,
    f2: StoredFile,
)
    requires
        s.stores(name1, x, f1),
        s.stores(name2, x, f2),
    ensures
        f1.metadata.checksum@ == f2.metadata.checksum@,
{
    lemma_encoding_unique(s, detected_kind(x), x, joined(f1.chunks@), joined(f2.chunks@));
}

/// A file's bytes read back from its stored form are the bytes stored.
pub proof fn lemma_decode_inverts_encode(s: DiskStorage, k: FileKind, x: Seq<u8>, y: Seq<u8>)
    requires
        s.encodes(k, x, y),
    ensures
        s.decoded(k, y) == Some(x),
{
    if k.is_transformed() {
        let m = choose|m: Seq<u8>| s.compressed_by(x, m) && s.encrypted_by(m, y);
        if let Some(e) = s.encryption_spec() {
            lemma_encryption_round_trip(e, m, y);
        }
        if let Some(c) = s.compression_spec() {
            lemma_compression_round_trip(c, x, m);
        }
    }
}

} // verus!
