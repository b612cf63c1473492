//! Trusted declarations for the bounded LRU map that backs the write-behind
//! cache.
//!
//! The cache's contents are modelled by the uninterpreted `lru_entries` map
//! from key views to cached entries; an entry of `None` is a tombstone (the
//! key is known to be deleted), `Some` a known value.  Each wrapper states,
//! over that map, what the `lru` crate's source shows for one method.  Which
//! entry an insertion evicts is left open: the wrappers only promise that the
//! surviving entries were already present.

use vstd::prelude::*;
use crate::store::opt_bytes;

verus! {

#[verifier::external_type_specification]
#[verifier::external_body]
#[verifier::reject_recursive_types(K)]
#[verifier::reject_recursive_types(V)]
#[verifier::reject_recursive_types(S)]
pub struct ExLruCache<K, V, S>(lru::LruCache<K, V, S>);

#[verifier::external_type_specification]
#[verifier::external_body]
pub struct ExDefaultHasher(lru::DefaultHasher);

/// The entries a cache holds, keyed by the key's view.
pub uninterp spec fn lru_entries(c: lru::LruCache<String, Option<Vec<u8>>>) -> Map<Seq<char>, Option<Seq<u8>>>;

/// The capacity the cache was created with: it never holds more entries.
pub uninterp spec fn lru_cap(c: lru::LruCache<String, Option<Vec<u8>>>) -> nat;

/// Relies on `lru::LruCache::new`: a freshly created cache holds no entries.
/// `new` panics on a zero capacity, which the precondition rules out.
#[verifier::external_body]
pub fn lru_new(cap: usize) -> (c: lru::LruCache<String, Option<Vec<u8>>>)
    requires
        cap >= 1,
    ensures
        forall|k: Seq<char>| !lru_entries(c).dom().contains(k),
        lru_entries(c).dom().finite(),
        lru_cap(c) == cap,
{
    lru::LruCache::new(core::num::NonZeroUsize::new(cap).unwrap())
}

/// Relies on `lru::LruCache::get`: returns the entry stored under the key and
/// only promotes its recency, leaving the set of entries unchanged.
#[verifier::external_body]
pub fn lru_get(c: &mut lru::LruCache<String, Option<Vec<u8>>>, key: &String) -> (r: Option<Option<Vec<u8>>>)
    ensures
        lru_entries(*final(c)) == lru_entries(*old(c)),
        lru_cap(*final(c)) == lru_cap(*old(c)),
        r is Some <==> lru_entries(*old(c)).dom().contains(key@),
        r matches Some(v) ==> opt_bytes(v) == lru_entries(*old(c))[key@],
{
    c.get(key).cloned()
}

/// Relies on `lru::LruCache::peek`: returns the entry stored under the key
/// without touching recency or contents.
#[verifier::external_body]
pub fn lru_peek(c: &lru::LruCache<String, Option<Vec<u8>>>, key: &String) -> (r: Option<Option<Vec<u8>>>)
    ensures
        r is Some <==> lru_entries(*c).dom().contains(key@),
        r matches Some(v) ==> opt_bytes(v) == lru_entries(*c)[key@],
{
    c.peek(key).cloned()
}

/// Relies on `lru::LruCache::put`: stores the entry under the key; only when
/// the key was absent and the cache full is one other entry (the least
/// recently used) evicted, and every surviving entry under another key keeps
/// its old value.
#[verifier::external_body]
pub fn lru_put(c: &mut lru::LruCache<String, Option<Vec<u8>>>, key: String, value: Option<Vec<u8>>)
    ensures
        lru_entries(*final(c)).dom().contains(key@),
        lru_entries(*final(c))[key@] == opt_bytes(value),
        lru_entries(*final(c)).dom().subset_of(lru_entries(*old(c)).dom().insert(key@)),
        forall|k: Seq<char>| #[trigger] lru_entries(*final(c)).dom().contains(k) && k != key@
            ==> lru_entries(*final(c))[k] == lru_entries(*old(c))[k],
        lru_cap(*final(c)) == lru_cap(*old(c)),
        lru_entries(*final(c)).dom().finite(),
        lru_entries(*final(c)).dom().len() <= lru_cap(*final(c)),
        lru_entries(*old(c)).dom().contains(key@)
                || lru_entries(*old(c)).dom().len() < lru_cap(*old(c))
            ==> lru_entries(*final(c)).dom() == lru_entries(*old(c)).dom().insert(key@),
{
    let _ = c.put(key, value);
}

/// Relies on `lru::LruCache::iter`: yields every entry of the cache exactly
/// once; the wrapper copies each into an owned pair.
#[verifier::external_body]
pub fn lru_entries_vec(c: &lru::LruCache<String, Option<Vec<u8>>>) -> (r: Vec<(String, Option<Vec<u8>>)>)
    ensures
        forall|i: int, j: int| 0 <= i < j < r@.len() ==> r@[i].0@ != r@[j].0@,
        forall|i: int| 0 <= i < r@.len() ==> lru_entries(*c).dom().contains((#[trigger] r@[i]).0@)
            && lru_entries(*c)[r@[i].0@] == opt_bytes(r@[i].1),
        forall|k: Seq<char>| #[trigger] lru_entries(*c).dom().contains(k)
            ==> exists|i: int| 0 <= i < r@.len() && r@[i].0@ == k,
{
    c.iter().map(|(k, v)| (k.clone(), v.clone())).collect()
}

} // verus!
