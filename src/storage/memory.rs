use crate::chunk::joined;
use crate::error::StorageError;
use crate::ident::id_text;
use crate::storage::cache::{lemma_get_after_put, lookup};
use crate::storage::disk::{chunk_ids_of, concat, lemma_decode_inverts_encode, DiskStorage, StoredFile};
use crate::storage::name_index::NameIndex;
use crate::types::file::detected_kind;
use crate::types::{AudioType, Chunk, ChunkId, DocumentType, FileMetadata, FileType, ImageType, VideoType};
use vstd::prelude::*;
use vstd::slice::slice_to_vec;

verus! {

/// The bytes of the last chunk written under `c`, if any.
pub open spec fn chunk_lookup(store: Seq<(ChunkId, Vec<u8>)>, c: ChunkId) -> Option<Seq<u8>>
    decreases store.len(),
{
    if store.len() == 0 {
        None
    } else if store.last().0 == c {
        Some(store.last().1@)
    } else {
        chunk_lookup(store.drop_last(), c)
    }
}

/// The bytes of the chunks `ids`, one after another, if every one is present.
pub open spec fn gather(store: Seq<(ChunkId, Vec<u8>)>, ids: Seq<ChunkId>) -> Option<Seq<u8>>
    decreases ids.len(),
{
    if ids.len() == 0 {
        Some(Seq::empty())
    } else {
        match (gather(store, ids.drop_last()), chunk_lookup(store, ids.last())) {
            (Some(a), Some(b)) => Some(a + b),
            _ => None,
        }
    }
}

/// The last record with identifier `id`, if any.
pub open spec fn record_of(records: Seq<FileMetadata>, id: u128) -> Option<FileMetadata>
    decreases records.len(),
{
    if records.len() == 0 {
        None
    } else if records.last().id == id {
        Some(records.last())
    } else {
        record_of(records.drop_last(), id)
    }
}

/// Two records agree on every field.
pub open spec fn same_record(a: FileMetadata, b: FileMetadata) -> bool {
    &&& a.id == b.id
    &&& a.name@ == b.name@
    &&& a.size == b.size
    &&& a.created_at == b.created_at
    &&& a.modified_at == b.modified_at
    &&& a.checksum@ == b.checksum@
    &&& a.file_type@ == b.file_type@
    &&& a.chunk_ids@ == b.chunk_ids@
}

/// The records whose identifier is not `id`, in order.
pub open spec fn without_id(records: Seq<FileMetadata>, id: u128) -> Seq<FileMetadata>
    decreases records.len(),
{
    if records.len() == 0 {
        records
    } else {
        let rest = without_id(records.drop_last(), id);
        if records.last().id != id {
            rest.push(records.last())
        } else {
            rest
        }
    }
}

/// Some record names chunk `c`.
pub open spec fn named_by(records: Seq<FileMetadata>, c: ChunkId) -> bool {
    exists|i: int| 0 <= i < records.len() && #[trigger] records[i].chunk_ids@.contains(c)
}

/// The chunk identifiers of written pairs, in order.
pub open spec fn pair_ids(pairs: Seq<(ChunkId, Vec<u8>)>) -> Seq<ChunkId> {
    pairs.map_values(|p: (ChunkId, Vec<u8>)| p.0)
}

/// The bytes of written pairs, one after another.
pub open spec fn pair_bytes(pairs: Seq<(ChunkId, Vec<u8>)>) -> Seq<u8>
    decreases pairs.len(),
{
    if pairs.len() == 0 {
        Seq::empty()
    } else {
        pair_bytes(pairs.drop_last()) + pairs.last().1@
    }
}

/// A storage backend that holds records, chunks and the name index in
/// memory, with the same transform pipeline, chunking and cache as the
/// disk engine.
pub struct MemoryStorage {
    engine: DiskStorage,
    records: Vec<FileMetadata>,
    chunks: Vec<(ChunkId, Vec<u8>)>,
    names: NameIndex,
}

impl MemoryStorage {
    pub closed spec fn engine_spec(&self) -> DiskStorage {
        self.engine
    }

    pub closed spec fn records_spec(&self) -> Seq<FileMetadata> {
        self.records@
    }

    pub closed spec fn chunks_spec(&self) -> Seq<(ChunkId, Vec<u8>)> {
        self.chunks@
    }

    pub closed spec fn name_spec(&self, name: Seq<char>) -> Option<u128> {
        self.names.get_spec(name)
    }

    pub open spec fn wf(&self) -> bool {
        self.engine_spec().wf()
    }

    /// What the cache holds for `id`.
    pub open spec fn cached_spec(&self, id: u128) -> Option<Seq<u8>> {
        match self.engine_spec().cache_spec() {
            Some(c) => lookup(c.entries(), id),
            None => None,
        }
    }

    /// What reading the file `id` gives: the cached bytes, else the decoded
    /// bytes of its record's chunks; nothing where the record, a chunk, or
    /// decoding is missing.
    pub open spec fn file_spec(&self, id: u128) -> Option<Seq<u8>> {
        match self.cached_spec(id) {
            Some(v) => Some(v),
            None => match record_of(self.records_spec(), id) {
                None => None,
                Some(m) => match gather(self.chunks_spec(), m.chunk_ids@) {
                    None => None,
                    Some(y) => self.engine_spec().decoded(m.file_type@, y),
                },
            },
        }
    }

    /// `self` is `old` after storing `x` as `name` with record `m` and the
    /// written chunks `new`: the chunks are appended, then the record, the
    /// name maps to the record, and the cache holds `x` under its id.
    pub open spec fn stored_from(
        &self,
        old: Self,
        name: Seq<char>,
        x: Seq<u8>,
        m: FileMetadata,
        new: Seq<(ChunkId, Vec<u8>)>,
    ) -> bool {
        &&& self.wf()
        &&& self.engine_spec().same_config(old.engine_spec())
        &&& self.engine_spec().cached_after_put(old.engine_spec(), m.id, x)
        &&& self.records_spec().len() == old.records_spec().len() + 1
        &&& self.records_spec().drop_last() == old.records_spec()
        &&& same_record(self.records_spec().last(), m)
        &&& self.chunks_spec() == old.chunks_spec() + new
        &&& m.name@ == name
        &&& m.file_type@ == detected_kind(x)
        &&& m.chunk_ids@ == pair_ids(new)
        &&& old.engine_spec().encodes(detected_kind(x), x, pair_bytes(new))
        &&& m.size == pair_bytes(new).len()
        &&& m.checksum@ == crate::chunk::sha256_hex(pair_bytes(new))
        &&& m.checksum@.len() == 64
        &&& m.created_at == m.modified_at
        &&& self.name_spec(name) == Some(m.id)
        &&& forall|n: Seq<char>| n != name ==> self.name_spec(n) == old.name_spec(n)
    }

    /// `self` is `old` after deleting the file `id`: no record and no cache
    /// entry for it remain, every other record is kept, and exactly the
    /// chunks that some remaining record names are kept.
    pub open spec fn deleted_from(&self, old: Self, id: u128) -> bool {
        &&& self.wf()
        &&& self.engine_spec().same_config(old.engine_spec())
        &&& self.records_spec() == without_id(old.records_spec(), id)
        &&& forall|n: Seq<char>| self.name_spec(n) == old.name_spec(n)
        &&& forall|k: u128| k != id ==> self.cached_spec(k) == old.cached_spec(k)
        &&& record_of(self.records_spec(), id) is None
        &&& self.cached_spec(id) is None
        &&& forall|k: u128|
            k != id ==> record_of(self.records_spec(), k) == record_of(old.records_spec(), k)
        &&& forall|c: ChunkId|
            named_by(self.records_spec(), c) ==> chunk_lookup(self.chunks_spec(), c) == chunk_lookup(
                old.chunks_spec(),
                c,
            )
        &&& forall|c: ChunkId|
            !named_by(self.records_spec(), c) ==> chunk_lookup(self.chunks_spec(), c) is None
    }

    /// An empty store around an engine.
    pub fn new(engine: DiskStorage) -> (r: Self)
        requires
            engine.wf(),
        ensures
            r.wf(),
            r.engine_spec() == engine,
            r.records_spec().len() == 0,
            r.chunks_spec().len() == 0,
            forall|n: Seq<char>| r.name_spec(n) is None,
    {
        MemoryStorage { engine, records: Vec::new(), chunks: Vec::new(), names: NameIndex::new() }
    }

    /// Stores a file: its chunks, then its record, then its name, then the
    /// cache entry.
    pub fn store_file(&mut self, name: &str, data: &[u8]) -> (r: Result<FileMetadata, StorageError>)
        requires
            old(self).wf(),
        ensures
            r matches Ok(m) ==> exists|new: Seq<(ChunkId, Vec<u8>)>|
                final(self).stored_from(*old(self), name@, data@, m, new),
            r is Err ==> *final(self) == *old(self),
            r is Ok <==> old(self).engine_spec().can_encode(detected_kind(data@), data@),
    {
        let stored = self.engine.prepare_store(name, data)?;
        let new = append_chunks(&mut self.chunks, &stored.chunks);
        let m = copy_metadata(&stored.metadata);
        let id = m.id;
        self.records.push(m);
        self.names.put(name, id);
        self.engine.remember(id, data);
        let out = copy_metadata(&stored.metadata);
        proof {
            assert(self.wf());
            assert(self.engine_spec().same_config(old(self).engine_spec()));
            assert(self.engine_spec().cached_after_put(old(self).engine_spec(), out.id, data@));
            assert(self.records_spec().drop_last() == old(self).records_spec());
            assert(same_record(self.records_spec().last(), out));
            assert(self.chunks_spec() == old(self).chunks_spec() + new@);
            assert(out.chunk_ids@ == pair_ids(new@));
            assert(old(self).engine_spec().encodes(detected_kind(data@), data@, pair_bytes(new@)));
            assert(out.size == pair_bytes(new@).len());
            assert(self.name_spec(name@) == Some(out.id));
            assert(self.stored_from(*old(self), name@, data@, out, new@));
        }
        Ok(out)
    }

    /// The file's bytes: from the cache when it holds them, else read from
    /// the chunks of the file's record and decoded; `NotFound` where there
    /// is no record or a chunk is missing.
    pub fn get_file(&mut self, id: u128) -> (r: Result<Vec<u8>, StorageError>)
        requires
            old(self).wf(),
        ensures
            final(self).wf(),
            final(self).records_spec() == old(self).records_spec(),
            final(self).chunks_spec() == old(self).chunks_spec(),
            r is Ok <==> old(self).file_spec(id) is Some,
            r matches Ok(x) ==> old(self).file_spec(id) == Some(x@),
            final(self).engine_spec().same_config(old(self).engine_spec()),
            forall|n: Seq<char>| final(self).name_spec(n) == old(self).name_spec(n),
            old(self).cached_spec(id) is None && record_of(old(self).records_spec(), id) is None
                ==> r matches Err(StorageError::NotFound(_)),
            old(self).cached_spec(id) is None && (record_of(old(self).records_spec(), id) matches Some(
                m,
            ) && gather(old(self).chunks_spec(), m.chunk_ids@) is None) ==> r matches Err(
                StorageError::NotFound(_),
            ),
            old(self).cached_spec(id) is None && (record_of(old(self).records_spec(), id) matches Some(
                m,
            ) && gather(old(self).chunks_spec(), m.chunk_ids@) is Some) && r is Err ==> r matches Err(
                StorageError::Storage(_),
            ),
            r is Err ==> forall|k: u128| final(self).cached_spec(k) == old(self).cached_spec(k),
    {
        if let Some(v) = self.engine.cached(id) {
            return Ok(v);
        }
        let k = match find_record(&self.records, id) {
            Some(k) => k,
            None => return Err(StorageError::NotFound(id_text(id))),
        };
        let meta = copy_metadata(&self.records[k]);
        let parts = match gather_parts(&self.chunks, &meta.chunk_ids) {
            Some(p) => p,
            None => return Err(StorageError::NotFound(id_text(id))),
        };
        self.engine.assemble_file(&meta, &parts)
    }

    /// Deletes a file: its records go, every chunk that no remaining record
    /// names goes, and its cache entry goes. `NotFound` where there is no
    /// record.
    pub fn delete_file(&mut self, id: u128) -> (r: Result<(), StorageError>)
        requires
            old(self).wf(),
        ensures
            final(self).wf(),
            record_of(old(self).records_spec(), id) is None ==> (r matches Err(
                StorageError::NotFound(_),
            ) && *final(self) == *old(self)),
            record_of(old(self).records_spec(), id) is Some ==> r is Ok,
            r is Ok ==> final(self).deleted_from(*old(self), id),
    {
        if find_record(&self.records, id).is_none() {
            return Err(StorageError::NotFound(id_text(id)));
        }
        remove_records(&mut self.records, id);
        sweep_chunks(&mut self.chunks, &self.records);
        self.engine.forget(id);
        Ok(())
    }

    /// Every record, once each, in the order stored.
    pub fn list_files(&self) -> (r: Vec<FileMetadata>)
        ensures
            r@.len() == self.records_spec().len(),
            forall|i: int| 0 <= i < r@.len() ==> same_record(#[trigger] r@[i], self.records_spec()[i]),
    {
        let mut out: Vec<FileMetadata> = Vec::new();
        let mut i: usize = 0;
        while i < self.records.len()
            invariant
                i <= self.records@.len(),
                out@.len() == i,
                forall|k: int| 0 <= k < i ==> same_record(#[trigger] out@[k], self.records@[k]),
            decreases self.records@.len() - i,
        {
            out.push(copy_metadata(&self.records[i]));
            i = i + 1;
        }
        out
    }

    /// The identifier of the file last stored under `name`.
    pub fn lookup_name(&self, name: &str) -> (r: Option<u128>)
        ensures
            r == self.name_spec(name@),
    {
        self.names.lookup(name)
    }
}

fn find_record(records: &Vec<FileMetadata>, id: u128) -> (r: Option<usize>)
    ensures
        match r {
            Some(k) => k < records@.len() && record_of(records@, id) == Some(records@[k as int]),
            None => record_of(records@, id) is None,
        },
{
    let mut k: usize = records.len();
    proof {
        assert(records@.subrange(0, records@.len() as int) == records@);
    }
    while k > 0
        invariant
            k <= records@.len(),
            record_of(records@, id) == record_of(records@.subrange(0, k as int), id),
        decreases k,
    {
        proof {
            assert(records@.subrange(0, k as int).drop_last() == records@.subrange(0, k - 1));
        }
        if records[k - 1].id == id {
            return Some(k - 1);
        }
        k = k - 1;
    }
    None
}

/// Appends the chunks' identifiers and bytes; gives back what was appended.
fn append_chunks(store: &mut Vec<(ChunkId, Vec<u8>)>, chunks: &Vec<Chunk>) -> (r: Ghost<
    Seq<(ChunkId, Vec<u8>)>,
>)
    ensures
        final(store)@ == old(store)@ + r@,
        pair_ids(r@) == chunk_ids_of(chunks@),
        pair_bytes(r@) == joined(chunks@),
{
    let ghost before = store@;
    let mut i: usize = 0;
    while i < chunks.len()
        invariant
            i <= chunks@.len(),
            store@.len() == before.len() + i,
            store@.subrange(0, before.len() as int) == before,
            forall|k: int|
                before.len() <= k < store@.len() ==> (#[trigger] store@[k]).0 == chunks@[k
                    - before.len()].id && store@[k].1@ == chunks@[k - before.len()].data@,
        decreases chunks@.len() - i,
    {
        let c = &chunks[i];
        store.push((c.id, slice_to_vec(c.data.as_slice())));
        proof {
            assert(store@.subrange(0, before.len() as int) =~= before);
        }
        i = i + 1;
    }
    let ghost new = store@.subrange(before.len() as int, store@.len() as int);
    proof {
        assert(store@ =~= before + new);
        assert forall|k: int| 0 <= k < new.len() implies (#[trigger] new[k]).0 == chunks@[k].id
            && new[k].1@ == chunks@[k].data@ by {
            assert(new[k] == store@[before.len() + k]);
        }
        lemma_pair_bytes(new, chunks@);
        assert(pair_ids(new) =~= chunk_ids_of(chunks@));
    }
    Ghost(new)
}

/// The bytes of each chunk of `ids`, in order, if every one is present.
fn gather_parts(store: &Vec<(ChunkId, Vec<u8>)>, ids: &Vec<ChunkId>) -> (r: Option<Vec<Vec<u8>>>)
    ensures
        match r {
            Some(parts) => parts@.len() == ids@.len() && gather(store@, ids@) == Some(concat(parts@)),
            None => gather(store@, ids@) is None,
        },
{
    let mut parts: Vec<Vec<u8>> = Vec::new();
    let mut j: usize = 0;
    while j < ids.len()
        invariant
            j <= ids@.len(),
            parts@.len() == j,
            gather(store@, ids@.subrange(0, j as int)) == Some(concat(parts@)),
        decreases ids@.len() - j,
    {
        let c = ids[j];
        let found = find_chunk(store, c);
        let ghost prefix = ids@.subrange(0, j + 1);
        proof {
            assert(prefix.drop_last() == ids@.subrange(0, j as int));
        }
        match found {
            Some(bytes) => {
                let ghost before = parts@;
                parts.push(bytes);
                proof {
                    assert(parts@.drop_last() == before);
                }
            },
            None => {
                proof {
                    lemma_gather_prefix_none(store@, ids@, j + 1);
                }
                return None;
            },
        }
        j = j + 1;
    }
    proof {
        assert(ids@.subrange(0, ids@.len() as int) == ids@);
    }
    Some(parts)
}

/// Removes every record with identifier `id`.
fn remove_records(records: &mut Vec<FileMetadata>, id: u128)
    ensures
        final(records)@ == without_id(old(records)@, id),
        record_of(final(records)@, id) is None,
        forall|k: u128| k != id ==> record_of(final(records)@, k) == record_of(old(records)@, k),
{
    let ghost all = records@;
    let mut i: usize = 0;
    let ghost mut n: int = 0;
    while i < records.len()
        invariant
            0 <= n <= all.len(),
            i <= records@.len(),
            records@.len() == i + (all.len() - n),
            forall|k: u128|
                k != id ==> record_of(records@.subrange(0, i as int), k) == record_of(
                    all.subrange(0, n),
                    k,
                ),
            record_of(records@.subrange(0, i as int), id) is None,
            records@.subrange(0, i as int) == without_id(all.subrange(0, n), id),
            forall|t: int| i <= t < records@.len() ==> #[trigger] records@[t] == all[n + t - i],
        decreases records@.len() - i,
    {
        proof {
            assert(all.subrange(0, n + 1).drop_last() == all.subrange(0, n));
            assert(records@[i as int] == all[n]);
        }
        if records[i].id == id {
            let ghost before = records@;
            records.remove(i);
            proof {
                assert forall|k: u128| k != id implies record_of(all.subrange(0, n + 1), k) == record_of(
                    all.subrange(0, n),
                    k,
                ) by {
                    assert(all.subrange(0, n + 1).last() == all[n]);
                    assert(all.subrange(0, n + 1).drop_last() == all.subrange(0, n));
                }
                assert forall|k: u128| k != id implies #[trigger] record_of(records@.subrange(0, i as int), k) == record_of(
                    all.subrange(0, n + 1),
                    k,
                ) by {
                    assert(records@.subrange(0, i as int) == before.subrange(0, i as int));
                    assert(record_of(before.subrange(0, i as int), k) == record_of(all.subrange(0, n), k));
                    assert(record_of(all.subrange(0, n + 1), k) == record_of(all.subrange(0, n), k));
                }
                assert(records@.subrange(0, i as int) == before.subrange(0, i as int));
                assert forall|t: int| i <= t < records@.len() implies #[trigger] records@[t] == all[(n
                    + 1) + t - i] by {
                    assert(records@[t] == before[t + 1]);
                }
                n = n + 1;
            }
        } else {
            proof {
                assert(records@.subrange(0, i + 1).drop_last() == records@.subrange(0, i as int));
                assert forall|k: u128| k != id implies #[trigger] record_of(records@.subrange(0, i + 1), k) == record_of(
                    all.subrange(0, n + 1),
                    k,
                ) by {
                    assert(all.subrange(0, n + 1).last() == all[n]);
                    assert(records@.subrange(0, i + 1).last() == records@[i as int]);
                    assert(record_of(records@.subrange(0, i as int), k) == record_of(all.subrange(0, n), k));
                    assert(all.subrange(0, n + 1).drop_last() == all.subrange(0, n));
                }
                assert(records@.subrange(0, i + 1).last() == records@[i as int]);
                n = n + 1;
            }
            i = i + 1;
        }
    }
    proof {
        assert(records@.subrange(0, i as int) == records@);
        assert(all.subrange(0, n) == all);
    }
}

/// Removes every chunk that no record names.
fn sweep_chunks(store: &mut Vec<(ChunkId, Vec<u8>)>, records: &Vec<FileMetadata>)
    ensures
        forall|c: ChunkId|
            named_by(records@, c) ==> chunk_lookup(final(store)@, c) == chunk_lookup(old(store)@, c),
        forall|c: ChunkId| !named_by(records@, c) ==> chunk_lookup(final(store)@, c) is None,
{
    let ghost all = store@;
    let mut i: usize = 0;
    let ghost mut n: int = 0;
    while i < store.len()
        invariant
            0 <= n <= all.len(),
            i <= store@.len(),
            store@.len() == i + (all.len() - n),
            forall|c: ChunkId|
                named_by(records@, c) ==> chunk_lookup(store@.subrange(0, i as int), c) == chunk_lookup(
                    all.subrange(0, n),
                    c,
                ),
            forall|c: ChunkId|
                !named_by(records@, c) ==> chunk_lookup(store@.subrange(0, i as int), c) is None,
            forall|t: int| i <= t < store@.len() ==> #[trigger] store@[t] == all[n + t - i],
        decreases store@.len() - i,
    {
        proof {
            assert(all.subrange(0, n + 1).drop_last() == all.subrange(0, n));
            assert(store@[i as int] == all[n]);
        }
        if !is_named(records, store[i].0) {
            let ghost before = store@;
            store.remove(i);
            proof {
                assert(store@.subrange(0, i as int) == before.subrange(0, i as int));
                assert forall|t: int| i <= t < store@.len() implies #[trigger] store@[t] == all[(n + 1)
                    + t - i] by {
                    assert(store@[t] == before[t + 1]);
                }
                n = n + 1;
            }
        } else {
            proof {
                assert(store@.subrange(0, i + 1).drop_last() == store@.subrange(0, i as int));
                n = n + 1;
            }
            i = i + 1;
        }
    }
    proof {
        assert(store@.subrange(0, i as int) == store@);
        assert(all.subrange(0, n) == all);
    }
}

fn is_named(records: &Vec<FileMetadata>, c: ChunkId) -> (r: bool)
    ensures
        r == named_by(records@, c),
{
    let mut i: usize = 0;
    while i < records.len()
        invariant
            i <= records@.len(),
            forall|k: int| 0 <= k < i ==> !(#[trigger] records@[k].chunk_ids@.contains(c)),
        decreases records@.len() - i,
    {
        let ids = &records[i].chunk_ids;
        let mut j: usize = 0;
        while j < ids.len()
            invariant
                i < records@.len(),
                ids == records@[i as int].chunk_ids,
                j <= ids@.len(),
                forall|t: int| 0 <= t < j ==> ids@[t] != c,
            decreases ids@.len() - j,
        {
            if ids[j].0 == c.0 {
                assert(ids@[j as int] == c);
                assert(records@[i as int].chunk_ids@.contains(c));
                return true;
            }
            j = j + 1;
        }
        i = i + 1;
    }
    false
}

fn find_chunk(store: &Vec<(ChunkId, Vec<u8>)>, c: ChunkId) -> (r: Option<Vec<u8>>)
    ensures
        match r {
            Some(v) => chunk_lookup(store@, c) == Some(v@),
            None => chunk_lookup(store@, c) is None,
        },
{
    let mut k: usize = store.len();
    proof {
        assert(store@.subrange(0, store@.len() as int) == store@);
    }
    while k > 0
        invariant
            k <= store@.len(),
            chunk_lookup(store@, c) == chunk_lookup(store@.subrange(0, k as int), c),
        decreases k,
    {
        proof {
            assert(store@.subrange(0, k as int).drop_last() == store@.subrange(0, k - 1));
        }
        if store[k - 1].0.0 == c.0 {
            return Some(slice_to_vec(store[k - 1].1.as_slice()));
        }
        k = k - 1;
    }
    None
}

fn copy_file_type(t: &FileType) -> (r: FileType)
    ensures
        r@ == t@,
{
    match t {
        FileType::Image(ImageType::Jpeg) => FileType::Image(ImageType::Jpeg),
        FileType::Image(ImageType::Png) => FileType::Image(ImageType::Png),
        FileType::Image(ImageType::Gif) => FileType::Image(ImageType::Gif),
        FileType::Image(ImageType::Webp) => FileType::Image(ImageType::Webp),
        FileType::Image(ImageType::Other(m)) => FileType::Image(ImageType::Other(m.clone())),
        FileType::Document(DocumentType::Pdf) => FileType::Document(DocumentType::Pdf),
        FileType::Document(DocumentType::Doc) => FileType::Document(DocumentType::Doc),
        FileType::Document(DocumentType::Docx) => FileType::Document(DocumentType::Docx),
        FileType::Document(DocumentType::Other(m)) => FileType::Document(DocumentType::Other(m.clone())),
        FileType::Video(VideoType::Mp4) => FileType::Video(VideoType::Mp4),
        FileType::Video(VideoType::Mkv) => FileType::Video(VideoType::Mkv),
        FileType::Video(VideoType::Avi) => FileType::Video(VideoType::Avi),
        FileType::Video(VideoType::Other(m)) => FileType::Video(VideoType::Other(m.clone())),
        FileType::Audio(AudioType::Mp3) => FileType::Audio(AudioType::Mp3),
        FileType::Audio(AudioType::Wav) => FileType::Audio(AudioType::Wav),
        FileType::Audio(AudioType::Flac) => FileType::Audio(AudioType::Flac),
        FileType::Audio(AudioType::Other(m)) => FileType::Audio(AudioType::Other(m.clone())),
        FileType::Unknown => FileType::Unknown,
    }
}

/// A field-by-field copy of a record.
fn copy_metadata(m: &FileMetadata) -> (r: FileMetadata)
    ensures
        r.id == m.id,
        r.name@ == m.name@,
        r.size == m.size,
        r.created_at == m.created_at,
        r.modified_at == m.modified_at,
        r.checksum@ == m.checksum@,
        r.file_type@ == m.file_type@,
        r.chunk_ids@ == m.chunk_ids@,
{
    let mut ids: Vec<ChunkId> = Vec::new();
    let mut i: usize = 0;
    while i < m.chunk_ids.len()
        invariant
            i <= m.chunk_ids@.len(),
            ids@ == m.chunk_ids@.subrange(0, i as int),
        decreases m.chunk_ids@.len() - i,
    {
        ids.push(m.chunk_ids[i]);
        i = i + 1;
    }
    proof {
        assert(m.chunk_ids@.subrange(0, m.chunk_ids@.len() as int) == m.chunk_ids@);
    }
    FileMetadata {
        id: m.id,
        name: m.name.clone(),
        size: m.size,
        created_at: m.created_at,
        modified_at: m.modified_at,
        checksum: m.checksum.clone(),
        file_type: copy_file_type(&m.file_type),
        chunk_ids: ids,
    }
}

proof fn lemma_pair_bytes(pairs: Seq<(ChunkId, Vec<u8>)>, chunks: Seq<crate::types::Chunk>)
    requires
        pairs.len() == chunks.len(),
        forall|k: int| 0 <= k < pairs.len() ==> (#[trigger] pairs[k]).0 == chunks[k].id && pairs[k].1@ == chunks[k].data@,
    ensures
        pair_bytes(pairs) == joined(chunks),
    decreases pairs.len(),
{
    if pairs.len() > 0 {
        lemma_pair_bytes(pairs.drop_last(), chunks.drop_last());
    }
}

proof fn lemma_gather_prefix_none(store: Seq<(ChunkId, Vec<u8>)>, ids: Seq<ChunkId>, n: int)
    requires
        0 <= n <= ids.len(),
        gather(store, ids.subrange(0, n)) is None,
    ensures
        gather(store, ids) is None,
    decreases ids.len() - n,
{
    if n < ids.len() {
        assert(ids.subrange(0, n + 1).drop_last() == ids.subrange(0, n));
        lemma_gather_prefix_none(store, ids, n + 1);
    } else {
        assert(ids.subrange(0, n) == ids);
    }
}

/// No identifier occurs twice.
pub open spec fn distinct_ids(ids: Seq<ChunkId>) -> bool {
    forall|a: int, b: int| 0 <= a < b < ids.len() ==> ids[a] != ids[b]
}

proof fn lemma_lookup_written(store: Seq<(ChunkId, Vec<u8>)>, new: Seq<(ChunkId, Vec<u8>)>, k: int)
    requires
        0 <= k < new.len(),
        distinct_ids(pair_ids(new)),
    ensures
        chunk_lookup(store + new, new[k].0) == Some(new[k].1@),
    decreases new.len(),
{
    let s = store + new;
    assert(s.last() == new.last());
    if k < new.len() - 1 {
        assert(pair_ids(new)[k] != pair_ids(new)[new.len() - 1]);
        assert(s.drop_last() == store + new.drop_last());
        assert(pair_ids(new.drop_last()) =~= pair_ids(new).drop_last());
        lemma_lookup_written(store, new.drop_last(), k);
    }
}

proof fn lemma_gather_written(store: Seq<(ChunkId, Vec<u8>)>, new: Seq<(ChunkId, Vec<u8>)>, j: int)
    requires
        0 <= j <= new.len(),
        distinct_ids(pair_ids(new)),
    ensures
        gather(store + new, pair_ids(new).subrange(0, j)) == Some(pair_bytes(new.subrange(0, j))),
    decreases j,
{
    if j > 0 {
        lemma_gather_written(store, new, j - 1);
        lemma_lookup_written(store, new, j - 1);
        assert(pair_ids(new).subrange(0, j).drop_last() == pair_ids(new).subrange(0, j - 1));
        assert(new.subrange(0, j).drop_last() == new.subrange(0, j - 1));
    } else {
        assert(pair_ids(new).subrange(0, 0).len() == 0);
        assert(new.subrange(0, 0).len() == 0);
    }
}

/// Right after a file is stored, reading it gives back its bytes, where
/// the chunks written for it have distinct identifiers.
pub proof fn lemma_get_after_store(
    before: MemoryStorage,
    after: MemoryStorage,
    name: Seq<char>,
    x: Seq<u8>,
    m: FileMetadata,
    new: Seq<(ChunkId, Vec<u8>)>,
)
    requires
        after.stored_from(before, name, x, m, new),
        distinct_ids(pair_ids(new)),
    ensures
        after.file_spec(m.id) == Some(x),
{
    if let Some(c0) = before.engine_spec().cache_spec() {
        lemma_get_after_put(c0.entries(), c0.capacity(), m.id, x);
    } else {
        let recs = after.records_spec();
        assert(record_of(recs, m.id) == Some(recs.last()));
        lemma_gather_written(before.chunks_spec(), new, new.len() as int);
        assert(pair_ids(new).subrange(0, new.len() as int) == pair_ids(new));
        assert(new.subrange(0, new.len() as int) == new);
        lemma_decode_inverts_encode(before.engine_spec(), detected_kind(x), x, pair_bytes(new));
    }
}

/// After a file is deleted, reading it finds nothing: neither the cache nor
/// the records hold it, so `get_file` fails with `NotFound`.
pub proof fn lemma_get_after_delete(before: MemoryStorage, after: MemoryStorage, id: u128)
    requires
        after.deleted_from(before, id),
    ensures
        after.file_spec(id) is None,
        after.cached_spec(id) is None,
        record_of(after.records_spec(), id) is None,
{
}

/// After a file is deleted, each of its chunks is still named by another
/// record or is gone.
pub proof fn lemma_deleted_chunks_named_or_gone(
    before: MemoryStorage,
    after: MemoryStorage,
    id: u128,
    m: FileMetadata,
    c: ChunkId,
)
    requires
        after.deleted_from(before, id),
        record_of(before.records_spec(), id) == Some(m),
        m.chunk_ids@.contains(c),
    ensures
        named_by(after.records_spec(), c) || chunk_lookup(after.chunks_spec(), c) is None,
{
}

/// After a delete, no chunk is left that no record names.
pub proof fn lemma_no_orphan_after_delete(before: MemoryStorage, after: MemoryStorage, id: u128, c: ChunkId)
    requires
        after.deleted_from(before, id),
        chunk_lookup(after.chunks_spec(), c) is Some,
    ensures
        named_by(after.records_spec(), c),
{
}

} // verus!
