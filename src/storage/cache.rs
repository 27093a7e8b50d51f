use vstd::prelude::*;

verus! {

#[verifier::external_type_specification]
#[verifier::external_body]
#[verifier::reject_recursive_types(K)]
#[verifier::reject_recursive_types(V)]
#[verifier::reject_recursive_types(S)]
pub struct ExLruCache<K, V, S>(lru::LruCache<K, V, S>);

#[verifier::external_type_specification]
#[verifier::external_body]
pub struct ExDefaultHasher(lru::DefaultHasher);

/// The entries of an LRU cache, from the least recently used to the most
/// recently used.
pub uninterp spec fn lru_entries(c: lru::LruCache<u128, Vec<u8>>) -> Seq<(u128, Seq<u8>)>;

/// The number of entries that an LRU cache holds at most.
pub uninterp spec fn lru_capacity(c: lru::LruCache<u128, Vec<u8>>) -> nat;

/// The position of key `k` in `e`, or -1 where it is absent.
pub open spec fn index_of_key(e: Seq<(u128, Seq<u8>)>, k: u128) -> int
    decreases e.len(),
{
    if e.len() == 0 {
        -1
    } else if e.last().0 == k {
        e.len() - 1
    } else {
        index_of_key(e.drop_last(), k)
    }
}

/// The value stored under `k`, if any.
pub open spec fn lookup(e: Seq<(u128, Seq<u8>)>, k: u128) -> Option<Seq<u8>> {
    let i = index_of_key(e, k);
    if i >= 0 {
        Some(e[i].1)
    } else {
        None
    }
}

/// The entries after `k` is read: a present entry becomes the most recent.
pub open spec fn after_get(e: Seq<(u128, Seq<u8>)>, k: u128) -> Seq<(u128, Seq<u8>)> {
    let i = index_of_key(e, k);
    if i >= 0 {
        e.remove(i).push(e[i])
    } else {
        e
    }
}

/// The entries after `k` is written with `v`: a present entry is replaced;
/// otherwise, in a full cache, the least recent entry leaves; the new entry
/// is the most recent.
pub open spec fn after_put(e: Seq<(u128, Seq<u8>)>, cap: nat, k: u128, v: Seq<u8>) -> Seq<
    (u128, Seq<u8>),
> {
    let i = index_of_key(e, k);
    if i >= 0 {
        e.remove(i).push((k, v))
    } else if e.len() >= cap {
        e.drop_first().push((k, v))
    } else {
        e.push((k, v))
    }
}

/// The entries after `k` is removed.
pub open spec fn after_pop(e: Seq<(u128, Seq<u8>)>, k: u128) -> Seq<(u128, Seq<u8>)> {
    let i = index_of_key(e, k);
    if i >= 0 {
        e.remove(i)
    } else {
        e
    }
}

/// No key occurs twice.
pub open spec fn keys_unique(e: Seq<(u128, Seq<u8>)>) -> bool {
    forall|a: int, b: int| 0 <= a < b < e.len() ==> e[a].0 != e[b].0
}

/// What every LRU cache keeps: a positive capacity, at most that many
/// entries, one per key.
pub open spec fn lru_wf(c: lru::LruCache<u128, Vec<u8>>) -> bool {
    &&& lru_capacity(c) > 0
    &&& lru_entries(c).len() <= lru_capacity(c)
    &&& keys_unique(lru_entries(c))
}

/// Relies on lru::LruCache::new: an empty cache of the given capacity.
#[verifier::external_body]
fn lru_new(cap: usize) -> (r: lru::LruCache<u128, Vec<u8>>)
    requires
        cap > 0,
    ensures
        lru_entries(r) == Seq::<(u128, Seq<u8>)>::empty(),
        lru_capacity(r) == cap,
        lru_wf(r),
{
    lru::LruCache::new(std::num::NonZeroUsize::new(cap).unwrap())
}

/// Relies on lru::LruCache::get: the value under the key, whose entry
/// becomes the most recently used.
#[verifier::external_body]
fn lru_get(c: &mut lru::LruCache<u128, Vec<u8>>, k: u128) -> (r: Option<Vec<u8>>)
    ensures
        r matches Some(v) ==> lookup(lru_entries(*old(c)), k) == Some(v@),
        r is None ==> lookup(lru_entries(*old(c)), k) is None,
        lru_entries(*final(c)) == after_get(lru_entries(*old(c)), k),
        lru_capacity(*final(c)) == lru_capacity(*old(c)),
        lru_wf(*final(c)),
{
    c.get(&k).cloned()
}

/// Relies on lru::LruCache::put: the key's entry is replaced or added as the
/// most recently used, and a full cache first drops its least recently used entry.
#[verifier::external_body]
fn lru_put(c: &mut lru::LruCache<u128, Vec<u8>>, k: u128, v: Vec<u8>)
    ensures
        lru_entries(*final(c)) == after_put(lru_entries(*old(c)), lru_capacity(*old(c)), k, v@),
        lru_capacity(*final(c)) == lru_capacity(*old(c)),
        lru_wf(*final(c)),
{
    c.put(k, v);
}

/// Relies on lru::LruCache::pop: the key's entry is removed, and a key has
/// one entry at most.
#[verifier::external_body]
fn lru_pop(c: &mut lru::LruCache<u128, Vec<u8>>, k: u128)
    ensures
        lru_entries(*final(c)) == after_pop(lru_entries(*old(c)), k),
        lookup(lru_entries(*final(c)), k) is None,
        lru_capacity(*final(c)) == lru_capacity(*old(c)),
        lru_wf(*final(c)),
{
    c.pop(&k);
}

/// A bounded map from file identifier to decoded file bytes, evicting the
/// least recently used entry.
pub struct CacheManager {
    cache: lru::LruCache<u128, Vec<u8>>,
}

impl CacheManager {
    /// The entries, from the least to the most recently used.
    pub closed spec fn entries(&self) -> Seq<(u128, Seq<u8>)> {
        lru_entries(self.cache)
    }

    pub closed spec fn capacity(&self) -> nat {
        lru_capacity(self.cache)
    }

    /// A positive capacity, at most that many entries, one per key.
    pub open spec fn wf(&self) -> bool {
        &&& self.capacity() > 0
        &&& self.entries().len() <= self.capacity()
        &&& keys_unique(self.entries())
    }

    /// An empty cache that holds at most `cache_size` entries.
    pub fn new(cache_size: usize) -> (r: Self)
        requires
            cache_size > 0,
        ensures
            r.entries() == Seq::<(u128, Seq<u8>)>::empty(),
            r.capacity() == cache_size,
            r.wf(),
    {
        CacheManager { cache: lru_new(cache_size) }
    }

    /// The bytes cached under `id`; the entry becomes the most recently used.
    pub fn get(&mut self, id: u128) -> (r: Option<Vec<u8>>)
        ensures
            r matches Some(v) ==> lookup(old(self).entries(), id) == Some(v@),
            r is None ==> lookup(old(self).entries(), id) is None,
            final(self).entries() == after_get(old(self).entries(), id),
            final(self).capacity() == old(self).capacity(),
            final(self).wf(),
    {
        lru_get(&mut self.cache, id)
    }

    /// Caches `data` under `id` as the most recently used entry.
    pub fn put(&mut self, id: u128, data: Vec<u8>)
        ensures
            final(self).entries() == after_put(old(self).entries(), old(self).capacity(), id, data@),
            final(self).capacity() == old(self).capacity(),
            final(self).wf(),
    {
        lru_put(&mut self.cache, id, data);
    }

    /// Drops the entry under `id`.
    pub fn invalidate(&mut self, id: u128)
        ensures
            final(self).entries() == after_pop(old(self).entries(), id),
            lookup(final(self).entries(), id) is None,
            forall|k: u128| k != id ==> lookup(final(self).entries(), k) == lookup(old(self).entries(), k),
            final(self).capacity() == old(self).capacity(),
            final(self).wf(),
    {
        lru_pop(&mut self.cache, id);
        proof {
            let e = old(self).entries();
            lemma_index_bound(e, id);
            assert forall|k: u128| k != id implies lookup(after_pop(e, id), k) == lookup(e, k) by {
                if index_of_key(e, id) >= 0 {
                    lemma_lookup_after_remove(e, index_of_key(e, id), k);
                }
            }
        }
    }
}

/// A value just written to the cache is what a read of its key finds.
pub proof fn lemma_get_after_put(e: Seq<(u128, Seq<u8>)>, cap: nat, k: u128, v: Seq<u8>)
    ensures
        lookup(after_put(e, cap, k, v), k) == Some(v),
{
    let e2 = after_put(e, cap, k, v);
    assert(e2.last() == (k, v));
    assert(e2.len() > 0);
}

proof fn lemma_index_bound(e: Seq<(u128, Seq<u8>)>, k: u128)
    ensures
        -1 <= index_of_key(e, k) < e.len(),
        index_of_key(e, k) >= 0 ==> e[index_of_key(e, k)].0 == k,
    decreases e.len(),
{
    if e.len() > 0 && e.last().0 != k {
        lemma_index_bound(e.drop_last(), k);
        let j = index_of_key(e.drop_last(), k);
        if j >= 0 {
            assert(e[j] == e.drop_last()[j]);
        }
    }
}

proof fn lemma_lookup_drop_last(e: Seq<(u128, Seq<u8>)>, k: u128)
    requires
        e.len() > 0,
        e.last().0 != k,
    ensures
        lookup(e, k) == lookup(e.drop_last(), k),
{
    lemma_index_bound(e.drop_last(), k);
    let j = index_of_key(e.drop_last(), k);
    if j >= 0 {
        assert(e[j] == e.drop_last()[j]);
    }
}

/// Removing another key's entry leaves what a read of `k` finds.
proof fn lemma_lookup_after_remove(e: Seq<(u128, Seq<u8>)>, i: int, k: u128)
    requires
        0 <= i < e.len(),
        e[i].0 != k,
    ensures
        lookup(e.remove(i), k) == lookup(e, k),
    decreases e.len(),
{
    let e2 = e.remove(i);
    if i == e.len() - 1 {
        assert(e2 =~= e.drop_last());
        lemma_lookup_drop_last(e, k);
    } else {
        assert(e2.last() == e.last());
        if e.last().0 != k {
            assert(e2.drop_last() =~= e.drop_last().remove(i));
            lemma_lookup_after_remove(e.drop_last(), i, k);
            lemma_lookup_drop_last(e, k);
            lemma_lookup_drop_last(e2, k);
        }
    }
}

} // verus!
