//! The capability-scoped handle table and the protocol entry points.
//!
//! `KeyValueDispatch` allocates small integer handles for opened stores,
//! enforces an allow-list of store names before any backend call, and bounds
//! the number of simultaneously open stores.  Handles are never reused: a
//! closed handle fails every later lookup instead of resolving to a newer
//! occupant.  Both the current and the legacy protocol entry points route
//! through this one table, with their error taxonomies translated at the
//! boundary.

use vstd::prelude::*;
use crate::errors::{Error, LegacyError, WasiError, to_legacy_error, to_wasi_err, legacy_of, wasi_of};
use crate::store::{
    Store, StoreManager, map_at, keys_match, opt_bytes, store_get_rel, store_set_rel,
    store_delete_rel, store_exists_rel, store_keys_rel, store_run_rel,
};

verus! {

/// Use of an unknown or closed handle: a local error distinct from the
/// store-level taxonomy, never forwarded from a backend.
#[derive(Debug, Clone, PartialEq, Eq)]
pub struct InvalidStore;

/// One page of a key listing; no real pagination exists, so the returned
/// cursor is always absent.
pub struct KeyResponse {
    pub keys: Vec<String>,
    pub cursor: Option<u64>,
}

/// The handle-table capacity used when none is configured.
pub const DEFAULT_STORE_TABLE_CAPACITY: u32 = 256;

/// The map described by a handle table's entries.
pub open spec fn table_map<V>(s: Seq<(u32, V)>) -> Map<u32, V>
    decreases s.len(),
{
    if s.len() == 0 {
        Map::empty()
    } else {
        table_map(s.drop_last()).insert(s.last().0, s.last().1)
    }
}

/// No two entries of `s` share a handle.
pub open spec fn table_unique<V>(s: Seq<(u32, V)>) -> bool {
    forall|i: int, j: int| 0 <= i < j < s.len() ==> s[i].0 != s[j].0
}

/// An entry present in the table is present in the map, with its store.
proof fn lemma_table_present<V>(s: Seq<(u32, V)>, i: int)
    requires
        table_unique(s),
        0 <= i < s.len(),
    ensures
        table_map(s).dom().contains(s[i].0),
        table_map(s)[s[i].0] == s[i].1,
    decreases s.len(),
{
    if i < s.len() - 1 {
        lemma_table_present(s.drop_last(), i);
    }
}

/// A handle held by no entry is absent from the map.
proof fn lemma_table_absent<V>(s: Seq<(u32, V)>, h: u32)
    requires
        forall|i: int| 0 <= i < s.len() ==> (#[trigger] s[i]).0 != h,
    ensures
        !table_map(s).dom().contains(h),
    decreases s.len(),
{
    if s.len() > 0 {
        lemma_table_absent(s.drop_last(), h);
    }
}

/// Removing the entry at `j` removes exactly its handle from the map.
proof fn lemma_table_remove<V>(s: Seq<(u32, V)>, j: int)
    requires
        table_unique(s),
        0 <= j < s.len(),
    ensures
        table_map(s.remove(j)) == table_map(s).remove(s[j].0),
    decreases s.len(),
{
    let h = s[j].0;
    if j == s.len() - 1 {
        assert(s.remove(j) =~= s.drop_last());
        lemma_table_absent(s.drop_last(), h);
        assert(table_map(s.drop_last()) =~= table_map(s).remove(h));
    } else {
        lemma_table_remove(s.drop_last(), j);
        assert(s.remove(j).drop_last() =~= s.drop_last().remove(j));
        assert(s.remove(j).last() == s.last());
        assert(table_map(s.remove(j)) =~= table_map(s).remove(h));
    }
}

/// The capability-scoped handle table over the stores of one manager.
pub struct KeyValueDispatch<M: StoreManager> {
    allowed_stores: Vec<String>,
    manager: M,
    stores: Vec<(u32, M::St)>,
    next_key: u32,
    capacity: u32,
}

impl<M: StoreManager> KeyValueDispatch<M> {
    /// Handles are unique and older than the next to be issued.
    #[verifier::type_invariant]
    spec fn wf(self) -> bool {
        &&& table_unique(self.stores@)
        &&& forall|i: int| 0 <= i < self.stores@.len() ==> (#[trigger] self.stores@[i]).0 < self.next_key
    }

    /// The open handles and their stores.
    pub closed spec fn stores_map(self) -> Map<u32, M::St> {
        table_map(self.stores@)
    }

    /// Whether `name` is in the allow-list.
    pub open spec fn allowed(self, name: Seq<char>) -> bool {
        exists|i: int| 0 <= i < self.allowed_list().len()
            && (#[trigger] self.allowed_list()[i])@ == name
    }

    /// The allow-list, as configured.
    pub closed spec fn allowed_list(self) -> Seq<String> {
        self.allowed_stores@
    }

    /// The configured manager.
    pub closed spec fn manager_of(self) -> M {
        self.manager
    }

    /// The number of simultaneously open stores this table accepts.
    pub closed spec fn table_capacity(self) -> u32 {
        self.capacity
    }

    /// How many stores are open now.
    pub closed spec fn live_count(self) -> nat {
        self.stores@.len()
    }

    /// Whether the table can issue no further handle.
    pub open spec fn is_full(self) -> bool {
        self.live_count() >= self.table_capacity() || self.next_handle() == u32::MAX
    }

    /// The handle the next successful open would return.
    pub closed spec fn next_handle(self) -> u32 {
        self.next_key
    }

    /// Builds a table with the default capacity.
    pub fn new(allowed_stores: Vec<String>, manager: M) -> (r: Self)
        ensures
            r.allowed_list() == allowed_stores@,
            r.manager_of() == manager,
            r.table_capacity() == DEFAULT_STORE_TABLE_CAPACITY,
            r.stores_map() == Map::<u32, M::St>::empty(),
            r.live_count() == 0,
            r.next_handle() == 0,
    {
        Self::new_with_capacity(allowed_stores, manager, DEFAULT_STORE_TABLE_CAPACITY)
    }

    /// Builds a table that accepts at most `capacity` open stores.
    pub fn new_with_capacity(allowed_stores: Vec<String>, manager: M, capacity: u32) -> (r: Self)
        ensures
            r.allowed_list() == allowed_stores@,
            r.manager_of() == manager,
            r.table_capacity() == capacity,
            r.stores_map() == Map::<u32, M::St>::empty(),
            r.live_count() == 0,
            r.next_handle() == 0,
    {
        KeyValueDispatch {
            allowed_stores,
            manager,
            stores: Vec::new(),
            next_key: 0,
            capacity,
        }
    }

    /// The allow-list of store names.
    pub fn allowed_stores(&self) -> (r: &Vec<String>)
        ensures
            r@ == self.allowed_list(),
    {
        &self.allowed_stores
    }

    /// Is `name` in the allow-list?
    fn name_allowed(&self, name: &String) -> (b: bool)
        ensures
            b == self.allowed(name@),
    {
        let mut i: usize = 0;
        while i < self.allowed_stores.len()
            invariant
                i <= self.allowed_stores@.len(),
                forall|j: int| 0 <= j < i ==> (#[trigger] self.allowed_stores@[j])@ != name@,
            decreases self.allowed_stores@.len() - i,
        {
            if self.allowed_stores[i].eq(name) {
                proof {
                    assert(self.allowed_list()[i as int]@ == name@);
                }
                return true;
            }
            i = i + 1;
        }
        false
    }

    /// The index of the entry for `store`, if the handle is live.
    fn find(&self, store: u32) -> (r: Option<usize>)
        requires
            table_unique(self.stores@),
        ensures
            r matches Some(i) ==> i < self.stores@.len() && self.stores@[i as int].0 == store
                && self.stores_map().dom().contains(store)
                && self.stores_map()[store] == self.stores@[i as int].1,
            r is None ==> !self.stores_map().dom().contains(store),
    {
        let mut i: usize = 0;
        while i < self.stores.len()
            invariant
                i <= self.stores@.len(),
                table_unique(self.stores@),
                forall|j: int| 0 <= j < i ==> (#[trigger] self.stores@[j]).0 != store,
            decreases self.stores@.len() - i,
        {
            if self.stores[i].0 == store {
                proof {
                    lemma_table_present(self.stores@, i as int);
                }
                return Some(i);
            }
            i = i + 1;
        }
        proof {
            lemma_table_absent(self.stores@, store);
        }
        None
    }
}

impl<M: StoreManager> KeyValueDispatch<M> {
    /// The store behind a live handle, or the local invalid-handle error.
    pub fn get_store(&self, store: u32) -> (r: Result<&M::St, InvalidStore>)
        ensures
            r matches Ok(st) ==> self.stores_map().dom().contains(store)
                && *st == self.stores_map()[store],
            r is Err ==> !self.stores_map().dom().contains(store),
    {
        proof {
            use_type_invariant(&*self);
        }
        match self.find(store) {
            Some(i) => Ok(&self.stores[i].1),
            None => Err(InvalidStore),
        }
    }

    /// The store behind a live handle; in the wasi-style taxonomy a dead
    /// handle surfaces as `NoSuchStore`.
    pub fn get_store_wasi(&self, store: u32) -> (r: Result<&M::St, WasiError>)
        ensures
            r matches Ok(st) ==> self.stores_map().dom().contains(store)
                && *st == self.stores_map()[store],
            r matches Err(e) ==> e == WasiError::NoSuchStore
                && !self.stores_map().dom().contains(store),
    {
        proof {
            use_type_invariant(&*self);
        }
        match self.find(store) {
            Some(i) => Ok(&self.stores[i].1),
            None => Err(WasiError::NoSuchStore),
        }
    }
}

/// Nothing changed but possibly the store behind `h`: the allow-list, the
/// capacity, the manager and every other handle's store are as before.
pub open spec fn frame_except<M: StoreManager>(pre: KeyValueDispatch<M>, post: KeyValueDispatch<M>, h: u32) -> bool {
    &&& post.allowed_list() == pre.allowed_list()
    &&& post.table_capacity() == pre.table_capacity()
    &&& post.manager_of() == pre.manager_of()
    &&& post.next_handle() == pre.next_handle()
    &&& post.live_count() == pre.live_count()
    &&& post.stores_map().dom() == pre.stores_map().dom()
    &&& forall|h2: u32| #[trigger] post.stores_map().dom().contains(h2) && h2 != h
        ==> post.stores_map()[h2] == pre.stores_map()[h2]
}

impl<M: StoreManager> KeyValueDispatch<M> {
    /// Opens the named store: the allow-list is checked before any manager
    /// call, so denial never reveals whether the name exists; then the
    /// manager resolves the name; then a handle is allocated if the table has
    /// room, and the fresh store is dropped without a trace if not.
    pub fn open(&mut self, name: String) -> (r: Result<u32, Error>)
        ensures
            open_post(*old(self), *final(self), name@, r),
    {
        proof {
            use_type_invariant(&*self);
        }
        if !self.name_allowed(&name) {
            return Err(Error::AccessDenied);
        }
        let store = match self.manager.get(&name) {
            Ok(s) => s,
            Err(e) => {
                return Err(e);
            }
        };
        if self.stores.len() >= self.capacity as usize || self.next_key == u32::MAX {
            proof {
                assert(self.manager_of().resolves(name@, Ok(store)));
            }
            return Err(Error::StoreTableFull);
        }
        let h = self.next_key;
        self.next_key = h + 1;
        let ghost pre_entries = self.stores@;
        let mut entries: Vec<(u32, M::St)> = Vec::new();
        core::mem::swap(&mut entries, &mut self.stores);
        entries.push((h, store));
        proof {
            assert(entries@.drop_last() =~= pre_entries);
            assert(forall|i: int| 0 <= i < pre_entries.len()
                ==> (#[trigger] pre_entries[i]).0 != h);
            lemma_table_absent(pre_entries, h);
        }
        core::mem::swap(&mut entries, &mut self.stores);
        Ok(h)
    }

    /// Reads a value through a handle.
    pub fn get(&mut self, store: u32, key: &String) -> (r: Result<Result<Option<Vec<u8>>, Error>, InvalidStore>)
        ensures
            !old(self).stores_map().dom().contains(store)
                ==> r is Err && *final(self) == *old(self),
            old(self).stores_map().dom().contains(store) ==> (r matches Ok(inner)
                && frame_except(*old(self), *final(self), store)
                && store_get_rel(old(self).stores_map()[store], final(self).stores_map()[store], key@, inner)),
    {
        proof {
            use_type_invariant(&*self);
        }
        let idx = match self.find(store) {
            Some(i) => i,
            None => {
                return Err(InvalidStore);
            }
        };
        let ghost pre_entries = self.stores@;
        let mut entries: Vec<(u32, M::St)> = Vec::new();
        core::mem::swap(&mut entries, &mut self.stores);
        let mut entry = entries.remove(idx);
        let inner = entry.1.get(key);
        entries.push(entry);
        proof {
            lemma_table_remove(pre_entries, idx as int);
            assert(entries@.drop_last() =~= pre_entries.remove(idx as int));
            assert(forall|i: int| 0 <= i < pre_entries.remove(idx as int).len()
                ==> (#[trigger] pre_entries.remove(idx as int)[i]).0 != store);
            assert(table_map(entries@) =~= table_map(pre_entries).insert(store, entries@.last().1));
        }
        core::mem::swap(&mut entries, &mut self.stores);
        proof {
            assert(self.stores_map().dom() =~= old(self).stores_map().dom());
        }
        Ok(inner)
    }

    /// Writes a value through a handle.
    pub fn set(&mut self, store: u32, key: &String, value: &Vec<u8>) -> (r: Result<Result<(), Error>, InvalidStore>)
        ensures
            !old(self).stores_map().dom().contains(store)
                ==> r is Err && *final(self) == *old(self),
            old(self).stores_map().dom().contains(store) ==> (r matches Ok(inner)
                && frame_except(*old(self), *final(self), store)
                && store_set_rel(old(self).stores_map()[store], final(self).stores_map()[store], key@, value@, inner)),
    {
        proof {
            use_type_invariant(&*self);
        }
        let idx = match self.find(store) {
            Some(i) => i,
            None => {
                return Err(InvalidStore);
            }
        };
        let ghost pre_entries = self.stores@;
        let mut entries: Vec<(u32, M::St)> = Vec::new();
        core::mem::swap(&mut entries, &mut self.stores);
        let mut entry = entries.remove(idx);
        let inner = entry.1.set(key, value);
        entries.push(entry);
        proof {
            lemma_table_remove(pre_entries, idx as int);
            assert(entries@.drop_last() =~= pre_entries.remove(idx as int));
            assert(forall|i: int| 0 <= i < pre_entries.remove(idx as int).len()
                ==> (#[trigger] pre_entries.remove(idx as int)[i]).0 != store);
            assert(table_map(entries@) =~= table_map(pre_entries).insert(store, entries@.last().1));
        }
        core::mem::swap(&mut entries, &mut self.stores);
        proof {
            assert(self.stores_map().dom() =~= old(self).stores_map().dom());
        }
        Ok(inner)
    }

    /// Deletes a value through a handle.
    pub fn delete(&mut self, store: u32, key: &String) -> (r: Result<Result<(), Error>, InvalidStore>)
        ensures
            !old(self).stores_map().dom().contains(store)
                ==> r is Err && *final(self) == *old(self),
            old(self).stores_map().dom().contains(store) ==> (r matches Ok(inner)
                && frame_except(*old(self), *final(self), store)
                && store_delete_rel(old(self).stores_map()[store], final(self).stores_map()[store], key@, inner)),
    {
        proof {
            use_type_invariant(&*self);
        }
        let idx = match self.find(store) {
            Some(i) => i,
            None => {
                return Err(InvalidStore);
            }
        };
        let ghost pre_entries = self.stores@;
        let mut entries: Vec<(u32, M::St)> = Vec::new();
        core::mem::swap(&mut entries, &mut self.stores);
        let mut entry = entries.remove(idx);
        let inner = entry.1.delete(key);
        entries.push(entry);
        proof {
            lemma_table_remove(pre_entries, idx as int);
            assert(entries@.drop_last() =~= pre_entries.remove(idx as int));
            assert(forall|i: int| 0 <= i < pre_entries.remove(idx as int).len()
                ==> (#[trigger] pre_entries.remove(idx as int)[i]).0 != store);
            assert(table_map(entries@) =~= table_map(pre_entries).insert(store, entries@.last().1));
        }
        core::mem::swap(&mut entries, &mut self.stores);
        proof {
            assert(self.stores_map().dom() =~= old(self).stores_map().dom());
        }
        Ok(inner)
    }

    /// Tests a key through a handle.
    pub fn exists_key(&mut self, store: u32, key: &String) -> (r: Result<Result<bool, Error>, InvalidStore>)
        ensures
            !old(self).stores_map().dom().contains(store)
                ==> r is Err && *final(self) == *old(self),
            old(self).stores_map().dom().contains(store) ==> (r matches Ok(inner)
                && frame_except(*old(self), *final(self), store)
                && store_exists_rel(old(self).stores_map()[store], final(self).stores_map()[store], key@, inner)),
    {
        proof {
            use_type_invariant(&*self);
        }
        let idx = match self.find(store) {
            Some(i) => i,
            None => {
                return Err(InvalidStore);
            }
        };
        let ghost pre_entries = self.stores@;
        let mut entries: Vec<(u32, M::St)> = Vec::new();
        core::mem::swap(&mut entries, &mut self.stores);
        let mut entry = entries.remove(idx);
        let inner = entry.1.exists_key(key);
        entries.push(entry);
        proof {
            lemma_table_remove(pre_entries, idx as int);
            assert(entries@.drop_last() =~= pre_entries.remove(idx as int));
            assert(forall|i: int| 0 <= i < pre_entries.remove(idx as int).len()
                ==> (#[trigger] pre_entries.remove(idx as int)[i]).0 != store);
            assert(table_map(entries@) =~= table_map(pre_entries).insert(store, entries@.last().1));
        }
        core::mem::swap(&mut entries, &mut self.stores);
        proof {
            assert(self.stores_map().dom() =~= old(self).stores_map().dom());
        }
        Ok(inner)
    }

    /// Lists the keys through a handle.
    pub fn get_keys(&mut self, store: u32) -> (r: Result<Result<Vec<String>, Error>, InvalidStore>)
        ensures
            !old(self).stores_map().dom().contains(store)
                ==> r is Err && *final(self) == *old(self),
            old(self).stores_map().dom().contains(store) ==> (r matches Ok(inner)
                && frame_except(*old(self), *final(self), store)
                && store_keys_rel(old(self).stores_map()[store], final(self).stores_map()[store], inner)),
    {
        proof {
            use_type_invariant(&*self);
        }
        let idx = match self.find(store) {
            Some(i) => i,
            None => {
                return Err(InvalidStore);
            }
        };
        let ghost pre_entries = self.stores@;
        let mut entries: Vec<(u32, M::St)> = Vec::new();
        core::mem::swap(&mut entries, &mut self.stores);
        let mut entry = entries.remove(idx);
        let inner = entry.1.get_keys();
        entries.push(entry);
        proof {
            lemma_table_remove(pre_entries, idx as int);
            assert(entries@.drop_last() =~= pre_entries.remove(idx as int));
            assert(forall|i: int| 0 <= i < pre_entries.remove(idx as int).len()
                ==> (#[trigger] pre_entries.remove(idx as int)[i]).0 != store);
            assert(table_map(entries@) =~= table_map(pre_entries).insert(store, entries@.last().1));
        }
        core::mem::swap(&mut entries, &mut self.stores);
        proof {
            assert(self.stores_map().dom() =~= old(self).stores_map().dom());
        }
        Ok(inner)
    }

    /// One step of the background worker for the store behind a handle: the
    /// embedding glue calls this between guest requests, so queued writes
    /// land on the backend without the guest acting.
    pub fn run_next_write(&mut self, store: u32) -> (r: Result<(), InvalidStore>)
        ensures
            !old(self).stores_map().dom().contains(store)
                ==> r is Err && *final(self) == *old(self),
            old(self).stores_map().dom().contains(store) ==> (r.is_ok()
                && frame_except(*old(self), *final(self), store)
                && store_run_rel(old(self).stores_map()[store], final(self).stores_map()[store])),
    {
        proof {
            use_type_invariant(&*self);
        }
        let idx = match self.find(store) {
            Some(i) => i,
            None => {
                return Err(InvalidStore);
            }
        };
        let ghost pre_entries = self.stores@;
        let mut entries: Vec<(u32, M::St)> = Vec::new();
        core::mem::swap(&mut entries, &mut self.stores);
        let mut entry = entries.remove(idx);
        entry.1.run_next_write();
        entries.push(entry);
        proof {
            lemma_table_remove(pre_entries, idx as int);
            assert(entries@.drop_last() =~= pre_entries.remove(idx as int));
            assert(forall|i: int| 0 <= i < pre_entries.remove(idx as int).len()
                ==> (#[trigger] pre_entries.remove(idx as int)[i]).0 != store);
            assert(table_map(entries@) =~= table_map(pre_entries).insert(store, entries@.last().1));
        }
        core::mem::swap(&mut entries, &mut self.stores);
        proof {
            assert(self.stores_map().dom() =~= old(self).stores_map().dom());
        }
        Ok(())
    }

    /// Closes a handle: the entry is dropped and the handle invalid from now
    /// on; closing an already closed handle is a no-op.  Pending cached
    /// writes of the dropped store are not awaited.
    pub fn close(&mut self, store: u32)
        ensures
            final(self).stores_map() == old(self).stores_map().remove(store),
            final(self).allowed_list() == old(self).allowed_list(),
            final(self).table_capacity() == old(self).table_capacity(),
            final(self).manager_of() == old(self).manager_of(),
            final(self).next_handle() == old(self).next_handle(),
            old(self).stores_map().dom().contains(store)
                ==> final(self).live_count() + 1 == old(self).live_count(),
            !old(self).stores_map().dom().contains(store) ==> *final(self) == *old(self),
            forall|h2: u32| #[trigger] final(self).stores_map().dom().contains(h2)
                ==> final(self).stores_map()[h2] == old(self).stores_map()[h2],
    {
        proof {
            use_type_invariant(&*self);
        }
        let idx = match self.find(store) {
            Some(i) => i,
            None => {
                proof {
                    assert(self.stores_map() =~= self.stores_map().remove(store));
                }
                return;
            }
        };
        let ghost pre_entries = self.stores@;
        let mut entries: Vec<(u32, M::St)> = Vec::new();
        core::mem::swap(&mut entries, &mut self.stores);
        let _ = entries.remove(idx);
        proof {
            lemma_table_remove(pre_entries, idx as int);
        }
        core::mem::swap(&mut entries, &mut self.stores);
    }
}

/// What `open` did.  The allow-list decides first, so denial reveals nothing;
/// any other error is either the manager's own resolution result handed
/// through, or `StoreTableFull`, which arises only on a full table after the
/// manager did resolve the name; a success inserts exactly the store the
/// manager resolved, under the next fresh handle.
pub open spec fn open_post<M: StoreManager>(pre: KeyValueDispatch<M>, post: KeyValueDispatch<M>, name: Seq<char>, r: Result<u32, Error>) -> bool {
    &&& !pre.allowed(name) ==> r == Err::<u32, Error>(Error::AccessDenied) && post == pre
    &&& pre.allowed(name) && !pre.manager_of().defined(name)
        ==> r == Err::<u32, Error>(Error::NoSuchStore)
    &&& r matches Err(e) ==> post == pre
    &&& pre.allowed(name) ==> (r matches Err(e) ==> e != Error::AccessDenied)
    &&& r matches Err(e) ==> (e == Error::AccessDenied || e == Error::StoreTableFull
        || pre.manager_of().resolves(name, Err(e)))
    &&& r == Err::<u32, Error>(Error::StoreTableFull) ==> pre.allowed(name) && pre.is_full()
        && (exists|st: M::St| #[trigger] pre.manager_of().resolves(name, Ok(st)))
    &&& pre.allowed(name) && pre.is_full() ==> r.is_err()
    &&& r matches Ok(h) ==> pre.allowed(name) && !pre.is_full()
        && h == pre.next_handle()
        && !pre.stores_map().dom().contains(h)
        && post.stores_map().dom() =~= pre.stores_map().dom().insert(h)
        && (forall|h2: u32| #[trigger] post.stores_map().dom().contains(h2)
            && h2 != h ==> post.stores_map()[h2] == pre.stores_map()[h2])
        && pre.manager_of().resolves(name, Ok(post.stores_map()[h]))
        && post.stores_map()[h].consistent()
        && post.live_count() == pre.live_count() + 1
        && post.next_handle() == pre.next_handle() + 1
        && post.allowed_list() == pre.allowed_list()
        && post.table_capacity() == pre.table_capacity()
        && post.manager_of() == pre.manager_of()
}

/// Capacity exhaustion: on a full table, opening an allowed name the manager
/// does resolve fails with exactly `StoreTableFull`, and the freshly resolved
/// store is dropped without any change to the table.
pub proof fn lemma_capacity_exhaustion<M: StoreManager>(
    pre: KeyValueDispatch<M>,
    post: KeyValueDispatch<M>,
    name: Seq<char>,
    r: Result<u32, Error>,
)
    requires
        open_post(pre, post, name, r),
        pre.allowed(name),
        pre.is_full(),
        forall|e: Error| !(#[trigger] pre.manager_of().resolves(name, Err(e))),
    ensures
        r == Err::<u32, Error>(Error::StoreTableFull),
        post == pre,
{
}

/// Cross-handle isolation: an operation through one handle leaves the store
/// behind every other handle untouched — two independently opened stores
/// never observe each other's uncommitted writes.
pub proof fn lemma_cross_handle_isolation<M: StoreManager>(
    pre: KeyValueDispatch<M>,
    post: KeyValueDispatch<M>,
    h1: u32,
    h2: u32,
)
    requires
        frame_except(pre, post, h1),
        pre.stores_map().dom().contains(h2),
        h2 != h1,
    ensures
        post.stores_map().dom().contains(h2),
        post.stores_map()[h2] == pre.stores_map()[h2],
{
}

impl<M: StoreManager> KeyValueDispatch<M> {
    /// Opens a store for the legacy protocol, whose errors map one-to-one:
    /// the result is the core `open`'s own, its error translated.
    pub fn open_legacy(&mut self, name: String) -> (r: Result<u32, LegacyError>)
        ensures
            exists|r0: Result<u32, Error>| #[trigger] open_post(*old(self), *final(self), name@, r0)
                && (match (r0, r) {
                    (Ok(h0), Ok(h)) => h0 == h,
                    (Err(e0), Err(e)) => legacy_of(e0, e),
                    _ => false,
                }),
            !old(self).allowed(name@) ==> r == Err::<u32, LegacyError>(LegacyError::AccessDenied)
                && *final(self) == *old(self),
            old(self).allowed(name@) && !old(self).manager_of().defined(name@)
                ==> r == Err::<u32, LegacyError>(LegacyError::NoSuchStore),
            r matches Err(e) ==> *final(self) == *old(self),
            r matches Ok(h) ==> old(self).allowed(name@) && !old(self).is_full()
                && !old(self).stores_map().dom().contains(h)
                && final(self).stores_map().dom() =~= old(self).stores_map().dom().insert(h)
                && old(self).manager_of().resolves(name@, Ok(final(self).stores_map()[h])),
    {
        match self.open(name) {
            Ok(h) => Ok(h),
            Err(e) => Err(to_legacy_error(e)),
        }
    }

    /// Reads for the legacy protocol: an absent key is an error of its own.
    pub fn get_legacy(&mut self, store: u32, key: &String) -> (r: Result<Result<Vec<u8>, LegacyError>, InvalidStore>)
        ensures
            !old(self).stores_map().dom().contains(store)
                ==> r is Err && *final(self) == *old(self),
            old(self).stores_map().dom().contains(store) ==> (r matches Ok(inner)
                && frame_except(*old(self), *final(self), store)),
            old(self).stores_map().dom().contains(store)
                && old(self).stores_map()[store].consistent() ==> (r matches Ok(inner)
                && (inner matches Ok(v) ==> map_at(old(self).stores_map()[store].store_view(), key@) == Some(v@))
                && (inner matches Err(e) ==> e == LegacyError::NoSuchKey)
                && (inner == Err::<Vec<u8>, LegacyError>(LegacyError::NoSuchKey)
                    <==> !old(self).stores_map()[store].store_view().dom().contains(key@))),
    {
        match self.get(store, key) {
            Ok(Ok(Some(v))) => Ok(Ok(v)),
            Ok(Ok(None)) => Ok(Err(LegacyError::NoSuchKey)),
            Ok(Err(e)) => Ok(Err(to_legacy_error(e))),
            Err(t) => Err(t),
        }
    }

    /// Writes for the legacy protocol.
    pub fn set_legacy(&mut self, store: u32, key: &String, value: &Vec<u8>) -> (r: Result<Result<(), LegacyError>, InvalidStore>)
        ensures
            !old(self).stores_map().dom().contains(store)
                ==> r is Err && *final(self) == *old(self),
            old(self).stores_map().dom().contains(store) ==> (r matches Ok(inner)
                && frame_except(*old(self), *final(self), store)
                && (inner.is_ok() ==> final(self).stores_map()[store].store_view()
                    == old(self).stores_map()[store].store_view().insert(key@, value@))
                && (old(self).stores_map()[store].consistent() ==> inner.is_ok())),
    {
        match self.set(store, key, value) {
            Ok(Ok(())) => Ok(Ok(())),
            Ok(Err(e)) => Ok(Err(to_legacy_error(e))),
            Err(t) => Err(t),
        }
    }

    /// Deletes for the legacy protocol.
    pub fn delete_legacy(&mut self, store: u32, key: &String) -> (r: Result<Result<(), LegacyError>, InvalidStore>)
        ensures
            !old(self).stores_map().dom().contains(store)
                ==> r is Err && *final(self) == *old(self),
            old(self).stores_map().dom().contains(store) ==> (r matches Ok(inner)
                && frame_except(*old(self), *final(self), store)
                && (inner.is_ok() ==> final(self).stores_map()[store].store_view()
                    == old(self).stores_map()[store].store_view().remove(key@))
                && (old(self).stores_map()[store].consistent() ==> inner.is_ok())),
    {
        match self.delete(store, key) {
            Ok(Ok(())) => Ok(Ok(())),
            Ok(Err(e)) => Ok(Err(to_legacy_error(e))),
            Err(t) => Err(t),
        }
    }

    /// Key test for the legacy protocol.
    pub fn exists_legacy(&mut self, store: u32, key: &String) -> (r: Result<Result<bool, LegacyError>, InvalidStore>)
        ensures
            !old(self).stores_map().dom().contains(store)
                ==> r is Err && *final(self) == *old(self),
            old(self).stores_map().dom().contains(store) ==> (r matches Ok(inner)
                && frame_except(*old(self), *final(self), store)
                && (old(self).stores_map()[store].consistent() ==> (inner matches Ok(b)
                    && b == old(self).stores_map()[store].store_view().dom().contains(key@)))),
    {
        match self.exists_key(store, key) {
            Ok(Ok(b)) => Ok(Ok(b)),
            Ok(Err(e)) => Ok(Err(to_legacy_error(e))),
            Err(t) => Err(t),
        }
    }

    /// Key listing for the legacy protocol.
    pub fn get_keys_legacy(&mut self, store: u32) -> (r: Result<Result<Vec<String>, LegacyError>, InvalidStore>)
        ensures
            !old(self).stores_map().dom().contains(store)
                ==> r is Err && *final(self) == *old(self),
            old(self).stores_map().dom().contains(store) ==> (r matches Ok(inner)
                && frame_except(*old(self), *final(self), store)
                && (old(self).stores_map()[store].consistent() ==> (inner matches Ok(keys)
                    && keys_match(keys@, old(self).stores_map()[store].store_view().dom())))),
    {
        match self.get_keys(store) {
            Ok(Ok(keys)) => Ok(Ok(keys)),
            Ok(Err(e)) => Ok(Err(to_legacy_error(e))),
            Err(t) => Err(t),
        }
    }

    /// Error pass-through for the wasi-style protocol bindings.
    pub fn convert_error(&self, error: WasiError) -> (r: WasiError)
        ensures
            r == error,
    {
        error
    }

    /// Reads for the wasi-style protocol; a dead handle is `NoSuchStore`.
    pub fn get_wasi(&mut self, store: u32, key: &String) -> (r: Result<Option<Vec<u8>>, WasiError>)
        ensures
            !old(self).stores_map().dom().contains(store)
                ==> r == Err::<Option<Vec<u8>>, WasiError>(WasiError::NoSuchStore)
                    && *final(self) == *old(self),
            old(self).stores_map().dom().contains(store)
                && old(self).stores_map()[store].consistent()
                ==> (r matches Ok(v)
                    && opt_bytes(v) == map_at(old(self).stores_map()[store].store_view(), key@)
                    && frame_except(*old(self), *final(self), store)),
    {
        match self.get(store, key) {
            Ok(Ok(v)) => Ok(v),
            Ok(Err(e)) => Err(to_wasi_err(e)),
            Err(_) => Err(WasiError::NoSuchStore),
        }
    }

    /// Writes for the wasi-style protocol; a dead handle is `NoSuchStore`.
    pub fn set_wasi(&mut self, store: u32, key: &String, value: &Vec<u8>) -> (r: Result<(), WasiError>)
        ensures
            !old(self).stores_map().dom().contains(store)
                ==> r == Err::<(), WasiError>(WasiError::NoSuchStore)
                    && *final(self) == *old(self),
            old(self).stores_map().dom().contains(store) && r.is_ok()
                ==> final(self).stores_map()[store].store_view()
                    == old(self).stores_map()[store].store_view().insert(key@, value@)
                    && frame_except(*old(self), *final(self), store),
            old(self).stores_map().dom().contains(store)
                && old(self).stores_map()[store].consistent() ==> r.is_ok(),
    {
        match self.set(store, key, value) {
            Ok(Ok(())) => Ok(()),
            Ok(Err(e)) => Err(to_wasi_err(e)),
            Err(_) => Err(WasiError::NoSuchStore),
        }
    }

    /// Deletes for the wasi-style protocol; a dead handle is `NoSuchStore`.
    pub fn delete_wasi(&mut self, store: u32, key: &String) -> (r: Result<(), WasiError>)
        ensures
            !old(self).stores_map().dom().contains(store)
                ==> r == Err::<(), WasiError>(WasiError::NoSuchStore)
                    && *final(self) == *old(self),
            old(self).stores_map().dom().contains(store) && r.is_ok()
                ==> final(self).stores_map()[store].store_view()
                    == old(self).stores_map()[store].store_view().remove(key@)
                    && frame_except(*old(self), *final(self), store),
            old(self).stores_map().dom().contains(store)
                && old(self).stores_map()[store].consistent() ==> r.is_ok(),
    {
        match self.delete(store, key) {
            Ok(Ok(())) => Ok(()),
            Ok(Err(e)) => Err(to_wasi_err(e)),
            Err(_) => Err(WasiError::NoSuchStore),
        }
    }

    /// Key test for the wasi-style protocol; a dead handle is `NoSuchStore`.
    pub fn exists_wasi(&mut self, store: u32, key: &String) -> (r: Result<bool, WasiError>)
        ensures
            !old(self).stores_map().dom().contains(store)
                ==> r == Err::<bool, WasiError>(WasiError::NoSuchStore)
                    && *final(self) == *old(self),
            old(self).stores_map().dom().contains(store)
                && old(self).stores_map()[store].consistent()
                ==> (r matches Ok(b)
                    && b == old(self).stores_map()[store].store_view().dom().contains(key@)
                    && frame_except(*old(self), *final(self), store)),
    {
        match self.exists_key(store, key) {
            Ok(Ok(b)) => Ok(b),
            Ok(Err(e)) => Err(to_wasi_err(e)),
            Err(_) => Err(WasiError::NoSuchStore),
        }
    }

    /// Opens a store for the wasi-style protocol; a full table has no
    /// counterpart in that taxonomy and surfaces as an opaque message.  The
    /// result is the core `open`'s own, its error translated.
    pub fn open_wasi(&mut self, identifier: String) -> (r: Result<u32, WasiError>)
        ensures
            exists|r0: Result<u32, Error>| #[trigger] open_post(*old(self), *final(self), identifier@, r0)
                && (match (r0, r) {
                    (Ok(h0), Ok(h)) => h0 == h,
                    (Err(e0), Err(e)) => wasi_of(e0, e),
                    _ => false,
                }),
            !old(self).allowed(identifier@) ==> r == Err::<u32, WasiError>(WasiError::AccessDenied)
                && *final(self) == *old(self),
            old(self).allowed(identifier@) && !old(self).manager_of().defined(identifier@)
                ==> r == Err::<u32, WasiError>(WasiError::NoSuchStore),
            r matches Err(e) ==> *final(self) == *old(self),
            r matches Ok(h) ==> old(self).allowed(identifier@) && !old(self).is_full()
                && !old(self).stores_map().dom().contains(h)
                && final(self).stores_map().dom() =~= old(self).stores_map().dom().insert(h)
                && old(self).manager_of().resolves(identifier@, Ok(final(self).stores_map()[h])),
    {
        match self.open(identifier) {
            Ok(h) => Ok(h),
            Err(e) => Err(to_wasi_err(e)),
        }
    }

    /// Key listing for the wasi-style protocol.  Pagination is accepted only
    /// with a "no more pages" cursor; any other cursor is unsupported.  An
    /// invalid handle surfaces as `NoSuchStore` in this taxonomy.
    pub fn list_keys(&mut self, store: u32, cursor: Option<u64>) -> (r: Result<KeyResponse, WasiError>)
        ensures
            (match cursor {
                Some(cu) => cu != 0,
                None => false,
            }) ==> (r matches Err(e) && e matches WasiError::Other(m)
                && m@ == "list_keys: cursor not supported"@
                && *final(self) == *old(self)),
            r matches Ok(kr) ==> kr.cursor is None,
            !old(self).stores_map().dom().contains(store)
                && (cursor is None || cursor == Some(0u64))
                ==> r == Err::<KeyResponse, WasiError>(WasiError::NoSuchStore)
                    && *final(self) == *old(self),
            old(self).stores_map().dom().contains(store)
                && (cursor is None || cursor == Some(0u64))
                && old(self).stores_map()[store].consistent()
                ==> (r matches Ok(kr)
                    && keys_match(kr.keys@, old(self).stores_map()[store].store_view().dom())
                    && frame_except(*old(self), *final(self), store)),
    {
        let cursor_value: u64 = match cursor {
            Some(c) => c,
            None => 0,
        };
        if cursor_value != 0 {
            return Err(WasiError::Other("list_keys: cursor not supported".to_string()));
        }
        match self.get_keys(store) {
            Ok(Ok(keys)) => Ok(KeyResponse { keys, cursor: None }),
            Ok(Err(e)) => Err(to_wasi_err(e)),
            Err(_) => Err(WasiError::NoSuchStore),
        }
    }
}

} // verus!
