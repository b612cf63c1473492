//! The write-behind caching decorator, the algorithmic core of the host.
//!
//! A `CachingStore` wraps any `Store` with a bounded LRU map and a queue of
//! pending writes.  `set` and `delete` record the new entry in the cache and
//! append the write to the queue without touching the backend, so they return
//! immediately and reads on the same instance see the write at once
//! (read-your-writes).  A read that misses the cache first flushes the queue
//! — entries may have been evicted while their writes were still queued — and
//! only then consults the backend.  Queued writes reach the backend strictly
//! in submission order, whether drained one at a time by the background
//! worker (`run_next_write`) or all at once by a flush.
//!
//! A failure of a queued write is deferred: it is surfaced by the next
//! operation that flushes, and every write queued behind the failure is
//! discarded, exactly as a chained background task would have skipped them.
//! From that point the store stops being `consistent` and only the
//! unconditional clauses of its contracts apply.

use vstd::prelude::*;
use crate::errors::Error;
use crate::store::{Store, StoreManager, opt_bytes, map_at, keys_match, store_set_rel, store_delete_rel};
use crate::lru_cache::{lru_new, lru_get, lru_peek, lru_put, lru_entries_vec, lru_entries, lru_cap};
use crate::memory::clone_bytes;

verus! {

/// One submitted write, queued until it reaches the backing store.
#[derive(Debug)]
pub enum WriteOp {
    Put(String, Vec<u8>),
    Del(String),
}

/// The effect of one queued write on a store view.
pub open spec fn apply_op(m: Map<Seq<char>, Seq<u8>>, op: WriteOp) -> Map<Seq<char>, Seq<u8>> {
    match op {
        WriteOp::Put(k, v) => m.insert(k@, v@),
        WriteOp::Del(k) => m.remove(k@),
    }
}

/// The effect of a queue of writes, applied in submission order.
pub open spec fn apply_ops(m: Map<Seq<char>, Seq<u8>>, ops: Seq<WriteOp>) -> Map<Seq<char>, Seq<u8>>
    decreases ops.len(),
{
    if ops.len() == 0 {
        m
    } else {
        apply_ops(apply_op(m, ops[0]), ops.drop_first())
    }
}

/// Appending a write to the queue appends its effect.
pub proof fn lemma_apply_ops_snoc(m: Map<Seq<char>, Seq<u8>>, ops: Seq<WriteOp>, op: WriteOp)
    ensures
        apply_ops(m, ops.push(op)) == apply_op(apply_ops(m, ops), op),
    decreases ops.len(),
{
    if ops.len() == 0 {
        assert(ops.push(op)[0] == op);
        assert(ops.push(op).drop_first() =~= ops);
        assert(apply_ops(m, ops.push(op)) == apply_ops(apply_op(m, op), ops));
        assert(apply_ops(apply_op(m, op), ops) == apply_op(m, op));
        assert(apply_ops(m, ops) == m);
    } else {
        assert(ops.push(op)[0] == ops[0]);
        assert(ops.push(op).drop_first() =~= ops.drop_first().push(op));
        lemma_apply_ops_snoc(apply_op(m, ops[0]), ops.drop_first(), op);
    }
}

/// A store wrapped in a bounded write-behind cache.
pub struct CachingStore<S: Store> {
    inner: S,
    cache: lru::LruCache<String, Option<Vec<u8>>>,
    pending: Vec<WriteOp>,
    deferred: Option<Error>,
}

impl<S: Store> CachingStore<S> {
    /// The cache's contents: `Some` a known value, `None` a tombstone.
    pub closed spec fn cache_map(self) -> Map<Seq<char>, Option<Seq<u8>>> {
        lru_entries(self.cache)
    }

    /// The queue of writes not yet applied to the backend.
    pub closed spec fn pending_ops(self) -> Seq<WriteOp> {
        self.pending@
    }

    /// The wrapped backend store.
    pub closed spec fn backend(self) -> S {
        self.inner
    }

    /// The backend's own view, which lags the logical view by the queue.
    pub open spec fn backend_view(self) -> Map<Seq<char>, Seq<u8>> {
        self.backend().store_view()
    }

    /// The failed write's own error, held until the next flush surfaces it.
    pub closed spec fn deferred_error(self) -> Option<Error> {
        self.deferred
    }

    /// Whether a failed write is waiting to be surfaced by the next flush.
    pub open spec fn has_deferred(self) -> bool {
        self.deferred_error() is Some
    }

    /// The bound the cache was created with; entries above it are evicted.
    pub closed spec fn cache_bound(self) -> nat {
        lru_cap(self.cache)
    }

    /// Every cache entry agrees with the logical view: a tombstone marks an
    /// absent key, a value entry the stored value.
    pub open spec fn cache_agrees(self) -> bool {
        forall|k: Seq<char>| #[trigger] self.cache_map().dom().contains(k)
            ==> self.cache_map()[k] == map_at(self.store_view(), k)
    }
}

/// The queued write `op` was attempted against the backend, which refused it
/// with `e`, moving from `b0` to `b1` as its own contract allows.
pub open spec fn write_rejected<S: Store>(b0: S, b1: S, op: WriteOp, e: Error) -> bool {
    match op {
        WriteOp::Put(k, v) => store_set_rel(b0, b1, k@, v@, Err::<(), Error>(e)),
        WriteOp::Del(k) => store_delete_rel(b0, b1, k@, Err::<(), Error>(e)),
    }
}

/// What `set` did: the entry is in the cache, the write is queued (so the
/// logical view holds the value), and nothing else changed except that the
/// insertion may have evicted one other cache entry.
pub open spec fn set_post<S: Store>(pre: CachingStore<S>, post: CachingStore<S>, k: Seq<char>, v: Seq<u8>) -> bool {
    &&& post.store_view() == pre.store_view().insert(k, v)
    &&& post.backend() == pre.backend()
    &&& post.pending_ops().len() == pre.pending_ops().len() + 1
    &&& post.cache_map().dom().contains(k) && post.cache_map()[k] == Some(v)
    &&& post.cache_map().dom().subset_of(pre.cache_map().dom().insert(k))
    &&& forall|k2: Seq<char>| #[trigger] post.cache_map().dom().contains(k2) && k2 != k
        ==> post.cache_map()[k2] == pre.cache_map()[k2]
    &&& post.deferred_error() == pre.deferred_error()
    &&& post.cache_bound() == pre.cache_bound()
    &&& pre.consistent() ==> post.consistent()
}

/// What `delete` did: a tombstone is in the cache and the delete is queued.
pub open spec fn delete_post<S: Store>(pre: CachingStore<S>, post: CachingStore<S>, k: Seq<char>) -> bool {
    &&& post.store_view() == pre.store_view().remove(k)
    &&& post.backend() == pre.backend()
    &&& post.pending_ops().len() == pre.pending_ops().len() + 1
    &&& post.cache_map().dom().contains(k) && post.cache_map()[k] == None::<Seq<u8>>
    &&& post.cache_map().dom().subset_of(pre.cache_map().dom().insert(k))
    &&& forall|k2: Seq<char>| #[trigger] post.cache_map().dom().contains(k2) && k2 != k
        ==> post.cache_map()[k2] == pre.cache_map()[k2]
    &&& post.deferred_error() == pre.deferred_error()
    &&& post.cache_bound() == pre.cache_bound()
    &&& pre.consistent() ==> post.consistent()
}

/// What `get` did: a hit answers from the cache without any backend work; a
/// miss flushes the queue, reads the backend and caches the result.
pub open spec fn get_post<S: Store>(pre: CachingStore<S>, post: CachingStore<S>, k: Seq<char>, r: Result<Option<Vec<u8>>, Error>) -> bool {
    if pre.cache_map().dom().contains(k) {
        &&& r matches Ok(v) && opt_bytes(v) == pre.cache_map()[k]
        &&& post.cache_map() == pre.cache_map()
        &&& post.backend() == pre.backend()
        &&& post.pending_ops() == pre.pending_ops()
        &&& post.store_view() == pre.store_view()
        &&& post.deferred_error() == pre.deferred_error()
        &&& post.cache_bound() == pre.cache_bound()
        &&& pre.consistent() ==> post.consistent()
    } else {
        &&& pre.consistent() ==> r.is_ok()
        &&& pre.has_deferred() ==> (r matches Err(e) && pre.deferred_error() == Some(e))
            && post.cache_map() == pre.cache_map()
            && post.backend() == pre.backend()
            && !post.has_deferred()
        &&& r.is_ok() ==> post.store_view() == pre.store_view()
            && post.pending_ops().len() == 0
            && post.cache_map().dom().contains(k)
        &&& post.cache_bound() == pre.cache_bound()
        &&& pre.consistent() ==> (r matches Ok(v) ==>
            opt_bytes(v) == map_at(pre.store_view(), k) && post.consistent())
    }
}

/// What `exists_key` did, defined through `get`.
pub open spec fn exists_post<S: Store>(pre: CachingStore<S>, post: CachingStore<S>, k: Seq<char>, r: Result<bool, Error>) -> bool {
    if pre.cache_map().dom().contains(k) {
        &&& r matches Ok(b) && b == (pre.cache_map()[k] is Some)
        &&& post.cache_map() == pre.cache_map()
        &&& post.backend() == pre.backend()
        &&& post.pending_ops() == pre.pending_ops()
        &&& post.store_view() == pre.store_view()
        &&& post.deferred_error() == pre.deferred_error()
        &&& pre.consistent() ==> post.consistent()
    } else {
        &&& pre.consistent() ==> r.is_ok()
        &&& pre.has_deferred() ==> (r matches Err(e) && pre.deferred_error() == Some(e))
            && post.cache_map() == pre.cache_map()
            && post.backend() == pre.backend()
            && !post.has_deferred()
        &&& r.is_ok() ==> post.store_view() == pre.store_view()
            && post.pending_ops().len() == 0
            && post.cache_map().dom().contains(k)
        &&& pre.consistent() ==> (r matches Ok(b) ==>
            b == pre.store_view().dom().contains(k) && post.consistent())
    }
}

/// What `flush` did: the queue was applied to the backend in submission
/// order, or the first failure (deferred or fresh) was surfaced; either way
/// the queue is empty afterwards and the cache untouched.
pub open spec fn flush_post<S: Store>(pre: CachingStore<S>, post: CachingStore<S>, r: Result<(), Error>) -> bool {
    &&& post.cache_map() == pre.cache_map()
    &&& post.cache_bound() == pre.cache_bound()
    &&& post.pending_ops().len() == 0
    &&& !post.has_deferred()
    &&& r.is_ok() ==> post.backend_view() == apply_ops(pre.backend_view(), pre.pending_ops())
        && post.store_view() == pre.store_view()
    &&& pre.has_deferred() ==> (r matches Err(e) && pre.deferred_error() == Some(e))
        && post.backend() == pre.backend()
    &&& r.is_err() ==> exists|i: int| 0 <= i <= pre.pending_ops().len()
        && post.backend_view() == apply_ops(pre.backend_view(), #[trigger] pre.pending_ops().take(i))
    &&& !pre.has_deferred() && pre.pending_ops().len() == 0 ==> r.is_ok()
    &&& pre.consistent() ==> r.is_ok() && post.consistent()
}

/// What one step of the background worker did: the oldest queued write was
/// applied to the backend (or discarded if a failure is already pending); the
/// logical view does not move.
pub open spec fn run_post<S: Store>(pre: CachingStore<S>, post: CachingStore<S>) -> bool {
    &&& post.cache_map() == pre.cache_map()
    &&& post.cache_bound() == pre.cache_bound()
    &&& if pre.pending_ops().len() == 0 {
            post == pre
        } else {
            post.pending_ops() == pre.pending_ops().drop_first()
        }
    &&& pre.has_deferred() ==> post.deferred_error() == pre.deferred_error()
        && post.backend() == pre.backend()
    &&& !pre.has_deferred() && pre.pending_ops().len() > 0 ==> {
            let op = pre.pending_ops()[0];
            &&& !post.has_deferred() ==> post.backend_view() == apply_op(pre.backend_view(), op)
            &&& post.has_deferred() ==> (post.deferred_error() matches Some(e)
                && write_rejected(pre.backend(), post.backend(), op, e))
        }
    &&& pre.consistent() ==> post.consistent() && !post.has_deferred()
        && post.store_view() == pre.store_view()
}

impl<S: Store> CachingStore<S> {
    /// Waits until every queued write has reached the backend, surfacing the
    /// first failure — deferred or fresh — as the result.  A failure discards
    /// the writes queued behind it, as the chained background tasks would
    /// have skipped them.
    pub fn flush(&mut self) -> (r: Result<(), Error>)
        ensures
            flush_post(*old(self), *final(self), r),
    {
        let d = self.deferred.take();
        match d {
            Some(e) => {
                self.pending = Vec::new();
                proof {
                    assert(old(self).pending_ops().take(0) =~= Seq::<WriteOp>::empty());
                    assert(self.backend_view()
                        == apply_ops(old(self).backend_view(), old(self).pending_ops().take(0)));
                }
                return Err(e);
            }
            None => {}
        }
        let ghost pre_inner = self.inner.store_view();
        let ghost ops = self.pending@;
        let mut i: usize = 0;
        while i < self.pending.len()
            invariant
                i <= self.pending@.len(),
                self.pending@ == ops,
                ops == old(self).pending@,
                pre_inner == old(self).backend_view(),
                !old(self).has_deferred(),
                self.cache == old(self).cache,
                self.deferred is None,
                self.inner.store_view() == apply_ops(pre_inner, ops.take(i as int)),
                old(self).inner.consistent() ==> self.inner.consistent(),
            decreases self.pending@.len() - i,
        {
            let step = match &self.pending[i] {
                WriteOp::Put(k, v) => self.inner.set(k, v),
                WriteOp::Del(k) => self.inner.delete(k),
            };
            proof {
                lemma_apply_ops_snoc(pre_inner, ops.take(i as int), ops[i as int]);
                assert(ops.take(i as int).push(ops[i as int]) =~= ops.take(i + 1));
            }
            match step {
                Ok(()) => {}
                Err(e) => {
                    self.pending = Vec::new();
                    proof {
                        assert(self.backend_view()
                            == apply_ops(old(self).backend_view(), old(self).pending_ops().take(i as int)));
                    }
                    return Err(e);
                }
            }
            i = i + 1;
        }
        proof {
            assert(ops.take(ops.len() as int) =~= ops);
        }
        self.pending = Vec::new();
        Ok(())
    }

    /// Batch reads are left to the backend: the decorator reports them as
    /// unsupported rather than guessing a caching strategy for them.
    pub fn get_many(&self, keys: &Vec<String>) -> (r: Result<Vec<Option<(String, Vec<u8>)>>, Error>)
        ensures
            r matches Err(e) && e matches Error::Other(_),
    {
        let _ = keys;
        Err(Error::Other("unsupported by the write-behind cache".to_string()))
    }

    /// Batch writes are unsupported by the decorator, like batch reads.
    pub fn set_many(&self, key_values: &Vec<(String, Vec<u8>)>) -> (r: Result<(), Error>)
        ensures
            r matches Err(e) && e matches Error::Other(_),
    {
        let _ = key_values;
        Err(Error::Other("unsupported by the write-behind cache".to_string()))
    }

    /// Batch deletes are unsupported by the decorator, like batch reads.
    pub fn delete_many(&self, keys: &Vec<String>) -> (r: Result<(), Error>)
        ensures
            r matches Err(e) && e matches Error::Other(_),
    {
        let _ = keys;
        Err(Error::Other("unsupported by the write-behind cache".to_string()))
    }

    /// Atomic increment is unsupported by the decorator.
    pub fn increment(&self, key: &String, delta: i64) -> (r: Result<i64, Error>)
        ensures
            r matches Err(e) && e matches Error::Other(_),
    {
        let _ = key;
        let _ = delta;
        Err(Error::Other("unsupported by the write-behind cache".to_string()))
    }

    /// Compare-and-swap sessions are unsupported by the decorator too: no
    /// session is ever produced, only the explicit failure.
    pub fn new_compare_and_swap(&self, key: &String) -> (r: Result<(), Error>)
        ensures
            r matches Err(e) && e matches Error::Other(_),
    {
        let _ = key;
        Err(Error::Other("unsupported by the write-behind cache".to_string()))
    }
}

/// Is some entry of `v` view-equal to `key`?
fn contains_string(v: &Vec<String>, key: &String) -> (b: bool)
    ensures
        b == exists|i: int| 0 <= i < v@.len() && (#[trigger] v@[i])@ == key@,
{
    let mut i: usize = 0;
    while i < v.len()
        invariant
            i <= v@.len(),
            forall|j: int| 0 <= j < i ==> (#[trigger] v@[j])@ != key@,
        decreases v@.len() - i,
    {
        if v[i].eq(key) {
            proof {
                assert(v@[i as int]@ == key@);
            }
            return true;
        }
        i = i + 1;
    }
    false
}

impl<S: Store> Store for CachingStore<S> {
    /// The logical contents: the backend with every queued write applied.
    closed spec fn store_view(self) -> Map<Seq<char>, Seq<u8>> {
        apply_ops(self.inner.store_view(), self.pending@)
    }

    /// Consistent while no failure is pending, the cache agrees with the
    /// logical view, and the backend is itself consistent.
    closed spec fn consistent(self) -> bool {
        &&& !self.has_deferred()
        &&& self.cache_agrees()
        &&& self.inner.consistent()
    }

    fn get(&mut self, key: &String) -> (r: Result<Option<Vec<u8>>, Error>)
        ensures
            get_post(*old(self), *final(self), key@, r),
    {
        match lru_get(&mut self.cache, key) {
            Some(v) => Ok(v),
            None => {
                match self.flush() {
                    Ok(()) => {}
                    Err(e) => {
                        return Err(e);
                    }
                }
                let v = match self.inner.get(key) {
                    Ok(v) => v,
                    Err(e) => {
                        return Err(e);
                    }
                };
                let cached: Option<Vec<u8>> = match &v {
                    Some(b) => Some(clone_bytes(b)),
                    None => None,
                };
                lru_put(&mut self.cache, key.clone(), cached);
                Ok(v)
            }
        }
    }

    fn set(&mut self, key: &String, value: &Vec<u8>) -> (r: Result<(), Error>)
        ensures
            r.is_ok(),
            set_post(*old(self), *final(self), key@, value@),
    {
        lru_put(&mut self.cache, key.clone(), Some(clone_bytes(value)));
        self.pending.push(WriteOp::Put(key.clone(), clone_bytes(value)));
        proof {
            lemma_apply_ops_snoc(self.inner.store_view(), old(self).pending@, self.pending@.last());
            assert(old(self).pending@.push(self.pending@.last()) =~= self.pending@);
        }
        Ok(())
    }

    fn delete(&mut self, key: &String) -> (r: Result<(), Error>)
        ensures
            r.is_ok(),
            delete_post(*old(self), *final(self), key@),
    {
        lru_put(&mut self.cache, key.clone(), None);
        self.pending.push(WriteOp::Del(key.clone()));
        proof {
            lemma_apply_ops_snoc(self.inner.store_view(), old(self).pending@, self.pending@.last());
            assert(old(self).pending@.push(self.pending@.last()) =~= self.pending@);
        }
        Ok(())
    }

    fn exists_key(&mut self, key: &String) -> (r: Result<bool, Error>)
        ensures
            exists_post(*old(self), *final(self), key@, r),
    {
        match self.get(key) {
            Ok(v) => Ok(v.is_some()),
            Err(e) => Err(e),
        }
    }

    fn get_keys(&mut self) -> (r: Result<Vec<String>, Error>)
        ensures
            old(self).consistent() ==> r.is_ok(),
            old(self).has_deferred() ==> (r matches Err(e) && old(self).deferred_error() == Some(e))
                && final(self).backend() == old(self).backend()
                && !final(self).has_deferred(),
            r.is_ok() ==> final(self).pending_ops().len() == 0,
            final(self).cache_map() == old(self).cache_map(),
            final(self).cache_bound() == old(self).cache_bound(),
            r matches Ok(keys) ==> (forall|a: int, b: int| 0 <= a < b < keys@.len()
                ==> keys@[a]@ != keys@[b]@),
    {
        let ghost c = old(self).consistent();
        match self.flush() {
            Ok(()) => {}
            Err(e) => {
                return Err(e);
            }
        }
        let backend_keys = match self.inner.get_keys() {
            Ok(v) => v,
            Err(e) => {
                return Err(e);
            }
        };
        let ghost dom = old(self).store_view().dom();
        proof {
            if c {
                assert(keys_match(backend_keys@, dom));
            }
        }
        let mut result: Vec<String> = Vec::new();
        let mut i: usize = 0;
        while i < backend_keys.len()
            invariant
                i <= backend_keys@.len(),
                c ==> result@ == backend_keys@.take(i as int),
                c ==> keys_match(backend_keys@, dom),
                dom == old(self).store_view().dom(),
                c ==> self.consistent() && self.store_view() == old(self).store_view(),
                forall|a: int, b: int| 0 <= a < b < result@.len() ==> result@[a]@ != result@[b]@,
            decreases backend_keys@.len() - i,
        {
            let peeked = lru_peek(&self.cache, &backend_keys[i]);
            let tombstoned = match &peeked {
                Some(None) => true,
                _ => false,
            };
            if tombstoned {
                proof {
                    if c {
                        let k = backend_keys@[i as int]@;
                        assert(peeked matches Some(v) && opt_bytes(v) == None::<Seq<u8>>);
                        assert(self.cache_map().dom().contains(k));
                        assert(self.cache_map()[k] == map_at(self.store_view(), k));
                        assert(dom.contains(k));
                        assert(self.store_view() == old(self).store_view());
                        assert(self.store_view().dom().contains(k));
                        assert(false);
                    }
                }
            } else {
                if !contains_string(&result, &backend_keys[i]) {
                    result.push(backend_keys[i].clone());
                    proof {
                        if c {
                            assert(backend_keys@.take(i + 1).drop_last() =~= backend_keys@.take(i as int));
                            assert(result@ =~= backend_keys@.take(i + 1));
                        }
                    }
                } else {
                    proof {
                        if c {
                            // A consistent backend lists each key once, so a
                            // duplicate here is impossible.
                            let k = backend_keys@[i as int]@;
                            let w = choose|w: int| 0 <= w < result@.len()
                                && (#[trigger] result@[w])@ == k;
                            assert(backend_keys@[w]@ == k);
                            assert(false);
                        }
                    }
                }
            }
            i = i + 1;
        }
        proof {
            if c {
                assert(backend_keys@.take(backend_keys@.len() as int) =~= backend_keys@);
            }
        }
        let cache_entries = lru_entries_vec(&self.cache);
        let mut j: usize = 0;
        while j < cache_entries.len()
            invariant
                j <= cache_entries@.len(),
                c ==> result@ == backend_keys@,
                c ==> keys_match(backend_keys@, dom),
                dom == old(self).store_view().dom(),
                c ==> self.consistent() && self.store_view() == old(self).store_view(),
                forall|a: int, b: int| 0 <= a < b < result@.len() ==> result@[a]@ != result@[b]@,
                forall|a: int| 0 <= a < cache_entries@.len()
                    ==> self.cache_map().dom().contains((#[trigger] cache_entries@[a]).0@)
                        && self.cache_map()[cache_entries@[a].0@] == opt_bytes(cache_entries@[a].1),
            decreases cache_entries@.len() - j,
        {
            let present = match &cache_entries[j].1 {
                Some(_) => true,
                None => false,
            };
            if present {
                if !contains_string(&result, &cache_entries[j].0) {
                    proof {
                        if c {
                            let k = cache_entries@[j as int].0@;
                            assert(self.cache_map().dom().contains(k));
                            assert(self.cache_map()[k] == opt_bytes(cache_entries@[j as int].1));
                            assert(cache_entries@[j as int].1 is Some);
                            assert(self.cache_map()[k] is Some);
                            assert(self.cache_map()[k] == map_at(self.store_view(), k));
                            assert(self.store_view().dom().contains(k));
                            assert(self.store_view() == old(self).store_view());
                            assert(dom.contains(k));
                            let w = choose|w: int| 0 <= w < backend_keys@.len()
                                && (#[trigger] backend_keys@[w])@ == k;
                            assert(result@[w]@ == k);
                            assert(false);
                        }
                    }
                    result.push(cache_entries[j].0.clone());
                }
            }
            j = j + 1;
        }
        Ok(result)
    }

    /// One step of the background worker: applies the oldest queued write to
    /// the backend.  A failure is not surfaced here; it is deferred until the
    /// next flush, and any write queued behind an already pending failure is
    /// discarded without running.
    fn run_next_write(&mut self)
        ensures
            run_post(*old(self), *final(self)),
    {
        if self.pending.len() == 0 {
            return;
        }
        let op = self.pending.remove(0);
        if self.deferred.is_some() {
            return;
        }
        let step = match &op {
            WriteOp::Put(k, v) => self.inner.set(k, v),
            WriteOp::Del(k) => self.inner.delete(k),
        };
        proof {
            assert(old(self).pending@[0] == op);
        }
        match step {
            Ok(()) => {
                proof {
                    if old(self).consistent() && self.consistent() {
                        assert(self.store_view() == apply_ops(apply_op(old(self).backend_view(), op), old(self).pending@.drop_first()));
                    }
                }
            }
            Err(e) => {
                self.deferred = Some(e);
            }
        }
    }
}

/// Wraps every store produced by the inner manager in a write-behind cache of
/// the configured capacity.  Each resolution builds an independent cache, so
/// two opened instances of the same name never share cache state.
pub struct CachingStoreManager<T> {
    capacity: usize,
    inner: T,
}

/// The cache capacity used when none is configured.
pub const DEFAULT_CACHE_SIZE: usize = 256;

impl<T> CachingStoreManager<T> {
    /// The cache never holds zero entries.
    #[verifier::type_invariant]
    spec fn wf(self) -> bool {
        self.capacity >= 1
    }

    /// The per-store cache capacity this manager configures.
    pub closed spec fn cache_capacity(self) -> usize {
        self.capacity
    }

    /// The wrapped manager.
    pub closed spec fn inner_manager(self) -> T {
        self.inner
    }

    /// Wraps `inner` with the default cache capacity.
    pub fn new(inner: T) -> (r: Self)
        ensures
            r.cache_capacity() == DEFAULT_CACHE_SIZE,
            r.inner_manager() == inner,
    {
        Self::new_with_capacity(DEFAULT_CACHE_SIZE, inner)
    }

    /// Wraps `inner`, giving each produced store a cache of `capacity`
    /// entries.
    pub fn new_with_capacity(capacity: usize, inner: T) -> (r: Self)
        requires
            capacity >= 1,
        ensures
            r.cache_capacity() == capacity,
            r.inner_manager() == inner,
    {
        CachingStoreManager { capacity, inner }
    }
}

impl<T: StoreManager> StoreManager for CachingStoreManager<T> {
    type St = CachingStore<T::St>;

    open spec fn defined(self, name: Seq<char>) -> bool {
        self.inner_manager().defined(name)
    }

    /// A success decorates exactly the store the inner manager resolved for
    /// this name, behind a fresh empty cache; an inner failure passes
    /// through undecorated, with no cache state created.
    open spec fn resolves(self, name: Seq<char>, r: Result<CachingStore<T::St>, Error>) -> bool {
        match r {
            Ok(st) => self.inner_manager().resolves(name, Ok(st.backend()))
                && st.cache_map() == Map::<Seq<char>, Option<Seq<u8>>>::empty()
                && st.pending_ops() == Seq::<WriteOp>::empty()
                && !st.has_deferred()
                && st.cache_bound() == self.cache_capacity(),
            Err(e) => self.inner_manager().resolves(name, Err(e)),
        }
    }

    fn get(&self, name: &String) -> (r: Result<CachingStore<T::St>, Error>)
        ensures
            r matches Ok(st) ==> st.cache_map() == Map::<Seq<char>, Option<Seq<u8>>>::empty()
                && st.pending_ops() == Seq::<WriteOp>::empty()
                && !st.has_deferred()
                && st.cache_bound() == self.cache_capacity(),
    {
        proof {
            use_type_invariant(self);
        }
        let inner_store = match self.inner.get(name) {
            Ok(s) => s,
            Err(e) => {
                return Err(e);
            }
        };
        let cache = lru_new(self.capacity);
        let st = CachingStore { inner: inner_store, cache, pending: Vec::new(), deferred: None };
        proof {
            assert(st.cache_map() =~= Map::<Seq<char>, Option<Seq<u8>>>::empty());
            assert(st.backend() == inner_store);
        }
        Ok(st)
    }

    fn is_defined(&self, store_name: &String) -> (b: bool) {
        self.inner.is_defined(store_name)
    }

    fn summary(&self, store_name: &String) -> (r: Option<String>) {
        self.inner.summary(store_name)
    }
}

/// Read-your-writes: a `get` right after a `set` of the same key on the same
/// instance returns the written value, whatever the backend did or failed to
/// do in between — the entry is still in the cache, so the read is a hit.
pub proof fn lemma_read_your_writes<S: Store>(
    s0: CachingStore<S>,
    s1: CachingStore<S>,
    s2: CachingStore<S>,
    key: Seq<char>,
    value: Seq<u8>,
    r: Result<Option<Vec<u8>>, Error>,
)
    requires
        set_post(s0, s1, key, value),
        get_post(s1, s2, key, r),
    ensures
        r matches Ok(v) && opt_bytes(v) == Some(value),
{
}

/// Tombstone visibility: an `exists_key` right after a `delete` of the same
/// key on the same instance reports the key absent, before any backend work.
pub proof fn lemma_tombstone_visibility<S: Store>(
    s0: CachingStore<S>,
    s1: CachingStore<S>,
    s2: CachingStore<S>,
    key: Seq<char>,
    r: Result<bool, Error>,
)
    requires
        delete_post(s0, s1, key),
        exists_post(s1, s2, key, r),
    ensures
        r matches Ok(b) && !b,
{
}

/// Write-order preservation: after two `set`s of the same key and a
/// successful flush, the backend holds the later value — the queue is applied
/// in submission order, so the earlier value can never win.
pub proof fn lemma_write_order<S: Store>(
    s0: CachingStore<S>,
    s1: CachingStore<S>,
    s2: CachingStore<S>,
    s3: CachingStore<S>,
    key: Seq<char>,
    first: Seq<u8>,
    second: Seq<u8>,
    r: Result<(), Error>,
)
    requires
        set_post(s0, s1, key, first),
        set_post(s1, s2, key, second),
        flush_post(s2, s3, r),
        r.is_ok(),
    ensures
        s3.backend_view().dom().contains(key),
        s3.backend_view()[key] == second,
{
    assert(s3.backend_view() == s2.store_view());
    assert(s2.store_view() == s0.store_view().insert(key, first).insert(key, second));
}

/// Eviction-safe consistency: on a consistent instance `get` succeeds and
/// returns the logical value of the key, whether it hits the cache or — after
/// any pattern of evictions — flushes and reads the backend.
pub proof fn lemma_eviction_safe_get<S: Store>(
    pre: CachingStore<S>,
    post: CachingStore<S>,
    key: Seq<char>,
    r: Result<Option<Vec<u8>>, Error>,
)
    requires
        pre.consistent(),
        get_post(pre, post, key, r),
    ensures
        r matches Ok(v) && opt_bytes(v) == map_at(pre.store_view(), key),
{
}

/// Key-listing overlay: after a queued delete of one key and a queued set of
/// another, a successful key listing reports exactly the original keys
/// without the deleted one and with the added one.
pub proof fn lemma_key_listing_overlay<S: Store>(
    s0: CachingStore<S>,
    s1: CachingStore<S>,
    s2: CachingStore<S>,
    key_deleted: Seq<char>,
    key_set: Seq<char>,
    value: Seq<u8>,
    keys: Seq<String>,
)
    requires
        s0.consistent(),
        delete_post(s0, s1, key_deleted),
        set_post(s1, s2, key_set, value),
        key_set != key_deleted,
        keys_match(keys, s2.store_view().dom()),
    ensures
        keys_match(keys, s0.store_view().dom().remove(key_deleted).insert(key_set)),
{
    assert(s2.store_view().dom() =~= s0.store_view().dom().remove(key_deleted).insert(key_set));
}

} // verus!

