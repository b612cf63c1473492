//! The store and store-manager capability interfaces.
//!
//! A `Store` is the backend-facing contract over one named key-value store; a
//! `StoreManager` resolves a store name to a `Store` instance.  Both are
//! specified against a mathematical view: a store is a finite map from key
//! strings to byte strings.
//!
//! A store's `consistent` predicate says that its internal bookkeeping still
//! reflects its view.  A plain in-memory store is always consistent; a
//! write-behind cache loses the claim once a deferred backend failure is
//! pending, and its contracts degrade to what can still be promised.

use vstd::prelude::*;
use crate::errors::Error;

verus! {

/// The view of an optional byte value.
pub open spec fn opt_bytes(o: Option<Vec<u8>>) -> Option<Seq<u8>> {
    match o {
        Some(v) => Some(v@),
        None => None,
    }
}

/// Looks a key up in a store view, `None` standing for an absent key.
pub open spec fn map_at(m: Map<Seq<char>, Seq<u8>>, k: Seq<char>) -> Option<Seq<u8>> {
    if m.dom().contains(k) {
        Some(m[k])
    } else {
        None
    }
}

/// `keys` lists exactly the domain `d`, each key once.
pub open spec fn keys_match(keys: Seq<String>, d: Set<Seq<char>>) -> bool {
    &&& forall|i: int, j: int| 0 <= i < j < keys.len() ==> keys[i]@ != keys[j]@
    &&& forall|i: int| 0 <= i < keys.len() ==> d.contains(#[trigger] keys[i]@)
    &&& forall|k: Seq<char>| #[trigger] d.contains(k) ==> exists|i: int| 0 <= i < keys.len() && keys[i]@ == k
}

/// The backend-facing contract over one named key-value store.
///
/// Mutating operations may fail with an opaque backend error; a consistent
/// store promises that writes succeed and that reads report the view.  The
/// write-behind decorator implements this same trait, which is what makes it
/// composable behind a manager without the callers changing.
pub trait Store: Sized {
    /// The logical contents of the store: every write already submitted
    /// through this instance is reflected here, whether or not it has reached
    /// the backing medium.
    spec fn store_view(self) -> Map<Seq<char>, Seq<u8>>;

    /// Whether the store's bookkeeping still reflects `store_view`.  Once a
    /// backend failure is pending unobserved, a cached store stops being
    /// consistent and only the weaker unconditional clauses below hold.
    spec fn consistent(self) -> bool;

    /// Reads the value stored under `key`.
    fn get(&mut self, key: &String) -> (r: Result<Option<Vec<u8>>, Error>)
        ensures
            old(self).consistent() ==> r.is_ok(),
            r.is_ok() ==> final(self).store_view() == old(self).store_view(),
            old(self).consistent() && r.is_ok() ==> final(self).consistent(),
            old(self).consistent() ==> (r matches Ok(v) ==>
                opt_bytes(v) == map_at(old(self).store_view(), key@)),
    ;

    /// Stores `value` under `key`.  A refused write is atomic: it leaves the
    /// contents as they were.
    fn set(&mut self, key: &String, value: &Vec<u8>) -> (r: Result<(), Error>)
        ensures
            r.is_ok() ==> final(self).store_view() == old(self).store_view().insert(key@, value@),
            r.is_err() ==> final(self).store_view() == old(self).store_view(),
            old(self).consistent() ==> r.is_ok() && final(self).consistent(),
    ;

    /// Removes the value stored under `key`; removing an absent key succeeds.
    /// A refused delete is atomic, like a refused write.
    fn delete(&mut self, key: &String) -> (r: Result<(), Error>)
        ensures
            r.is_ok() ==> final(self).store_view() == old(self).store_view().remove(key@),
            r.is_err() ==> final(self).store_view() == old(self).store_view(),
            old(self).consistent() ==> r.is_ok() && final(self).consistent(),
    ;

    /// Reports whether a value is stored under `key`.
    fn exists_key(&mut self, key: &String) -> (r: Result<bool, Error>)
        ensures
            old(self).consistent() ==> r.is_ok(),
            r.is_ok() ==> final(self).store_view() == old(self).store_view(),
            old(self).consistent() && r.is_ok() ==> final(self).consistent(),
            old(self).consistent() ==> (r matches Ok(b) ==>
                b == old(self).store_view().dom().contains(key@)),
    ;

    /// Lists the stored keys, each once, in no promised order.
    fn get_keys(&mut self) -> (r: Result<Vec<String>, Error>)
        ensures
            old(self).consistent() ==> r.is_ok(),
            r.is_ok() ==> final(self).store_view() == old(self).store_view(),
            old(self).consistent() && r.is_ok() ==> final(self).consistent(),
            old(self).consistent() ==> (r matches Ok(keys) ==>
                keys_match(keys@, old(self).store_view().dom())),
    ;

    /// One step of whatever background work the store has deferred; a store
    /// that defers nothing does nothing.  The logical view never moves, and
    /// a consistent store stays consistent.
    fn run_next_write(&mut self)
        ensures
            old(self).consistent() ==> final(self).consistent()
                && final(self).store_view() == old(self).store_view(),
    {
    }
}

/// What a store's `get` promises, as a relation between the states before
/// and after the call; the handle table propagates it through a handle.
pub open spec fn store_get_rel<S: Store>(pre: S, post: S, k: Seq<char>, r: Result<Option<Vec<u8>>, Error>) -> bool {
    &&& pre.consistent() ==> r.is_ok()
    &&& r.is_ok() ==> post.store_view() == pre.store_view()
    &&& pre.consistent() && r.is_ok() ==> post.consistent()
    &&& pre.consistent() ==> (r matches Ok(v) ==> opt_bytes(v) == map_at(pre.store_view(), k))
}

/// What a store's `set` promises, as a relation between states.
pub open spec fn store_set_rel<S: Store>(pre: S, post: S, k: Seq<char>, v: Seq<u8>, r: Result<(), Error>) -> bool {
    &&& r.is_ok() ==> post.store_view() == pre.store_view().insert(k, v)
    &&& r.is_err() ==> post.store_view() == pre.store_view()
    &&& pre.consistent() ==> r.is_ok() && post.consistent()
}

/// What a store's `delete` promises, as a relation between states.
pub open spec fn store_delete_rel<S: Store>(pre: S, post: S, k: Seq<char>, r: Result<(), Error>) -> bool {
    &&& r.is_ok() ==> post.store_view() == pre.store_view().remove(k)
    &&& r.is_err() ==> post.store_view() == pre.store_view()
    &&& pre.consistent() ==> r.is_ok() && post.consistent()
}

/// What a store's `exists_key` promises, as a relation between states.
pub open spec fn store_exists_rel<S: Store>(pre: S, post: S, k: Seq<char>, r: Result<bool, Error>) -> bool {
    &&& pre.consistent() ==> r.is_ok()
    &&& r.is_ok() ==> post.store_view() == pre.store_view()
    &&& pre.consistent() && r.is_ok() ==> post.consistent()
    &&& pre.consistent() ==> (r matches Ok(b) ==> b == pre.store_view().dom().contains(k))
}

/// What a store's `run_next_write` promises, as a relation between states.
pub open spec fn store_run_rel<S: Store>(pre: S, post: S) -> bool {
    pre.consistent() ==> post.consistent() && post.store_view() == pre.store_view()
}

/// What a store's `get_keys` promises, as a relation between states.
pub open spec fn store_keys_rel<S: Store>(pre: S, post: S, r: Result<Vec<String>, Error>) -> bool {
    &&& pre.consistent() ==> r.is_ok()
    &&& r.is_ok() ==> post.store_view() == pre.store_view()
    &&& pre.consistent() && r.is_ok() ==> post.consistent()
    &&& pre.consistent() ==> (r matches Ok(keys) ==> keys_match(keys@, pre.store_view().dom()))
}

/// Resolves a store name to a `Store` instance.
///
/// Managers never decide access control or table capacity: those failures are
/// local to the handle table, so a manager's error is `NoSuchStore` or an
/// opaque backend failure, never `AccessDenied` or `StoreTableFull`.
pub trait StoreManager: Sized {
    /// The store type this manager produces.
    type St: Store;

    /// Whether the manager knows the name, independent of access policy.
    spec fn defined(self, name: Seq<char>) -> bool;

    /// What resolving `name` may produce: each manager pins here how its
    /// result relates to its own state and, for a wrapping manager, to the
    /// result of the manager it wraps.  `get` returns nothing outside this
    /// relation, so a caller can trace an opened store, or a passed-through
    /// error, back to the manager that produced it.
    spec fn resolves(self, name: Seq<char>, r: Result<Self::St, Error>) -> bool;

    /// Resolves `name` to a store instance.
    fn get(&self, name: &String) -> (r: Result<Self::St, Error>)
        ensures
            self.resolves(name@, r),
            !self.defined(name@) ==> (r matches Err(e) && e == Error::NoSuchStore),
            r matches Err(e) ==> e != Error::AccessDenied && e != Error::StoreTableFull,
            r matches Ok(st) ==> st.consistent(),
    ;

    /// A policy-free existence check for `name`.
    fn is_defined(&self, store_name: &String) -> (b: bool)
        ensures
            b == self.defined(store_name@),
    ;

    /// A human-readable summary of the named store's configuration, used only
    /// for observability, never for control flow.
    fn summary(&self, store_name: &String) -> (r: Option<String>) {
        let _ = store_name;
        None
    }
}

} // verus!
