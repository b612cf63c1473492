//! An in-memory store backend and a manager over a fixed set of such stores.
//!
//! The store keeps its entries as an association list with unique keys; its
//! view folds that list into a finite map.  The manager hands out an
//! independent copy of the named store on every resolution, so two opened
//! instances never share state.

use vstd::prelude::*;
use crate::errors::Error;
use crate::store::{Store, StoreManager};

verus! {

/// The map described by an association list, later entries overriding earlier
/// ones.
pub open spec fn kv_map(s: Seq<(String, Vec<u8>)>) -> Map<Seq<char>, Seq<u8>>
    decreases s.len(),
{
    if s.len() == 0 {
        Map::empty()
    } else {
        kv_map(s.drop_last()).insert(s.last().0@, s.last().1@)
    }
}

/// No two entries of `s` share a key.
pub open spec fn kv_unique(s: Seq<(String, Vec<u8>)>) -> bool {
    forall|i: int, j: int| 0 <= i < j < s.len() ==> s[i].0@ != s[j].0@
}

/// An entry present in the list is present in the map, with its value.
proof fn lemma_kv_map_present(s: Seq<(String, Vec<u8>)>, i: int)
    requires
        kv_unique(s),
        0 <= i < s.len(),
    ensures
        kv_map(s).dom().contains(s[i].0@),
        kv_map(s)[s[i].0@] == s[i].1@,
    decreases s.len(),
{
    if i == s.len() - 1 {
    } else {
        lemma_kv_map_present(s.drop_last(), i);
    }
}

/// A key held by no entry of the list is absent from the map.
proof fn lemma_kv_map_absent(s: Seq<(String, Vec<u8>)>, k: Seq<char>)
    requires
        forall|i: int| 0 <= i < s.len() ==> (#[trigger] s[i].0)@ != k,
    ensures
        !kv_map(s).dom().contains(k),
    decreases s.len(),
{
    if s.len() > 0 {
        lemma_kv_map_absent(s.drop_last(), k);
    }
}

/// Removing the entry at `j` from a unique list removes exactly its key from
/// the map.
proof fn lemma_kv_map_remove(s: Seq<(String, Vec<u8>)>, j: int)
    requires
        kv_unique(s),
        0 <= j < s.len(),
    ensures
        kv_map(s.remove(j)) == kv_map(s).remove(s[j].0@),
    decreases s.len(),
{
    let k = s[j].0@;
    if j == s.len() - 1 {
        assert(s.remove(j) =~= s.drop_last());
        assert(forall|i: int| 0 <= i < s.drop_last().len() ==> (#[trigger] s.drop_last()[i].0)@ != k);
        lemma_kv_map_absent(s.drop_last(), k);
        assert(kv_map(s.drop_last()) =~= kv_map(s).remove(k));
    } else {
        lemma_kv_map_remove(s.drop_last(), j);
        assert(s.remove(j).drop_last() =~= s.drop_last().remove(j));
        assert(s.remove(j).last() == s.last());
        assert(kv_map(s.remove(j)) =~= kv_map(s).remove(k));
    }
}

/// Copies a byte vector.
pub fn clone_bytes(v: &Vec<u8>) -> (r: Vec<u8>)
    ensures
        r@ == v@,
{
    let mut r: Vec<u8> = Vec::new();
    let mut i: usize = 0;
    while i < v.len()
        invariant
            i <= v.len(),
            r@ == v@.take(i as int),
        decreases v.len() - i,
    {
        r.push(v[i]);
        i = i + 1;
        proof {
            assert(r@ =~= v@.take(i as int));
        }
    }
    proof {
        assert(v@.take(v@.len() as int) =~= v@);
    }
    r
}

/// An in-memory key-value store.
pub struct MemoryStore {
    entries: Vec<(String, Vec<u8>)>,
}

impl MemoryStore {
    /// The view of the store: the finite map its entries describe.
    pub closed spec fn view_map(self) -> Map<Seq<char>, Seq<u8>> {
        kv_map(self.entries@)
    }

    /// Entries carry pairwise distinct keys.
    #[verifier::type_invariant]
    pub closed spec fn wf(self) -> bool {
        kv_unique(self.entries@)
    }

    /// Creates an empty store.
    pub fn new() -> (r: MemoryStore)
        ensures
            r.store_view() == Map::<Seq<char>, Seq<u8>>::empty(),
    {
        MemoryStore { entries: Vec::new() }
    }

    /// The index of the entry holding `key`, if any.
    fn find(&self, key: &String) -> (r: Option<usize>)
        ensures
            r matches Some(i) ==> i < self.entries@.len() && self.entries@[i as int].0@ == key@,
            r is None ==> forall|i: int| 0 <= i < self.entries@.len()
                ==> (#[trigger] self.entries@[i].0)@ != key@,
    {
        let mut i: usize = 0;
        while i < self.entries.len()
            invariant
                i <= self.entries@.len(),
                forall|j: int| 0 <= j < i ==> (#[trigger] self.entries@[j].0)@ != key@,
            decreases self.entries@.len() - i,
        {
            if self.entries[i].0.eq(key) {
                return Some(i);
            }
            i = i + 1;
        }
        None
    }
}

impl Store for MemoryStore {
    open spec fn store_view(self) -> Map<Seq<char>, Seq<u8>> {
        self.view_map()
    }

    /// An in-memory store never defers a failure.
    open spec fn consistent(self) -> bool {
        true
    }

    fn get(&mut self, key: &String) -> (r: Result<Option<Vec<u8>>, Error>) {
        proof {
            use_type_invariant(&*self);
        }
        match self.find(key) {
            Some(i) => {
                proof {
                    lemma_kv_map_present(self.entries@, i as int);
                }
                Ok(Some(clone_bytes(&self.entries[i].1)))
            }
            None => {
                proof {
                    lemma_kv_map_absent(self.entries@, key@);
                }
                Ok(None)
            }
        }
    }

    fn set(&mut self, key: &String, value: &Vec<u8>) -> (r: Result<(), Error>) {
        proof {
            use_type_invariant(&*self);
        }
        let found = self.find(key);
        let mut entries: Vec<(String, Vec<u8>)> = Vec::new();
        core::mem::swap(&mut entries, &mut self.entries);
        let ghost pre = entries@;
        match found {
            Some(i) => {
                let _ = entries.remove(i);
                proof {
                    lemma_kv_map_remove(pre, i as int);
                    assert(forall|j: int| 0 <= j < entries@.len()
                        ==> (#[trigger] entries@[j].0)@ != key@);
                }
            }
            None => {
                proof {
                    lemma_kv_map_absent(pre, key@);
                }
            }
        }
        let ghost mid = entries@;
        entries.push((key.clone(), clone_bytes(value)));
        proof {
            assert(entries@.drop_last() =~= mid);
            assert(kv_map(entries@) =~= old(self).view_map().insert(key@, value@));
        }
        core::mem::swap(&mut entries, &mut self.entries);
        Ok(())
    }

    fn delete(&mut self, key: &String) -> (r: Result<(), Error>) {
        proof {
            use_type_invariant(&*self);
        }
        let found = self.find(key);
        let mut entries: Vec<(String, Vec<u8>)> = Vec::new();
        core::mem::swap(&mut entries, &mut self.entries);
        let ghost pre = entries@;
        match found {
            Some(i) => {
                let _ = entries.remove(i);
                proof {
                    lemma_kv_map_remove(pre, i as int);
                }
            }
            None => {
                proof {
                    lemma_kv_map_absent(pre, key@);
                    assert(kv_map(pre) =~= kv_map(pre).remove(key@));
                }
            }
        }
        core::mem::swap(&mut entries, &mut self.entries);
        Ok(())
    }

    fn exists_key(&mut self, key: &String) -> (r: Result<bool, Error>) {
        proof {
            use_type_invariant(&*self);
        }
        match self.find(key) {
            Some(i) => {
                proof {
                    lemma_kv_map_present(self.entries@, i as int);
                }
                Ok(true)
            }
            None => {
                proof {
                    lemma_kv_map_absent(self.entries@, key@);
                }
                Ok(false)
            }
        }
    }

    fn get_keys(&mut self) -> (r: Result<Vec<String>, Error>) {
        proof {
            use_type_invariant(&*self);
        }
        let mut keys: Vec<String> = Vec::new();
        let mut i: usize = 0;
        while i < self.entries.len()
            invariant
                i <= self.entries@.len(),
                kv_unique(self.entries@),
                keys@.len() == i,
                forall|j: int| 0 <= j < i ==> (#[trigger] keys@[j])@ == self.entries@[j].0@,
            decreases self.entries@.len() - i,
        {
            keys.push(self.entries[i].0.clone());
            i = i + 1;
        }
        proof {
            assert forall|k: Seq<char>| #[trigger] self.view_map().dom().contains(k)
                implies exists|j: int| 0 <= j < keys@.len() && keys@[j]@ == k by {
                if forall|j: int| 0 <= j < self.entries@.len()
                    ==> (#[trigger] self.entries@[j].0)@ != k {
                    lemma_kv_map_absent(self.entries@, k);
                }
                let j = choose|j: int| 0 <= j < self.entries@.len()
                    && (#[trigger] self.entries@[j].0)@ == k;
                assert(keys@[j]@ == k);
            }
            assert forall|j: int| 0 <= j < keys@.len()
                implies self.view_map().dom().contains(#[trigger] keys@[j]@) by {
                lemma_kv_map_present(self.entries@, j);
            }
        }
        Ok(keys)
    }
}

/// A manager over a fixed set of named in-memory stores.  Resolving a name
/// yields an independent copy of the named store's current contents.
pub struct MemoryStoreManager {
    stores: Vec<(String, MemoryStore)>,
}

impl MemoryStoreManager {
    /// The names this manager knows.
    pub closed spec fn names(self) -> Seq<String> {
        self.stores@.map_values(|p: (String, MemoryStore)| p.0)
    }

    /// Creates a manager with no stores.
    pub fn new() -> (r: MemoryStoreManager)
        ensures
            forall|n: Seq<char>| !r.defined(n),
    {
        MemoryStoreManager { stores: Vec::new() }
    }

    /// Registers `store` under `name`.
    pub fn register(&mut self, name: String, store: MemoryStore)
        ensures
            final(self).defined(name@),
            forall|n: Seq<char>| old(self).defined(n) ==> final(self).defined(n),
    {
        self.stores.push((name, store));
        proof {
            let post = self.stores@;
            assert(post[post.len() - 1].0@ == post.last().0@);
            assert forall|n: Seq<char>| old(self).defined(n) implies self.defined(n) by {
                let i = choose|i: int| 0 <= i < old(self).stores@.len()
                    && (#[trigger] old(self).stores@[i].0)@ == n;
                assert(post[i].0@ == n);
            }
        }
    }

    /// The index of the store registered under `name`, if any.
    fn find(&self, name: &String) -> (r: Option<usize>)
        ensures
            r matches Some(i) ==> i < self.stores@.len() && self.stores@[i as int].0@ == name@
                && forall|j: int| 0 <= j < i ==> (#[trigger] self.stores@[j].0)@ != name@,
            r is None ==> !self.defined(name@),
    {
        let mut i: usize = 0;
        while i < self.stores.len()
            invariant
                i <= self.stores@.len(),
                forall|j: int| 0 <= j < i ==> (#[trigger] self.stores@[j].0)@ != name@,
            decreases self.stores@.len() - i,
        {
            if self.stores[i].0.eq(name) {
                return Some(i);
            }
            i = i + 1;
        }
        None
    }
}

impl StoreManager for MemoryStoreManager {
    type St = MemoryStore;

    closed spec fn defined(self, name: Seq<char>) -> bool {
        exists|i: int| 0 <= i < self.stores@.len() && (#[trigger] self.stores@[i].0)@ == name
    }

    /// A known name resolves to a copy of the registered contents; an
    /// unknown one to `NoSuchStore`, and to nothing else.
    open spec fn resolves(self, name: Seq<char>, r: Result<MemoryStore, Error>) -> bool {
        if self.defined(name) {
            r matches Ok(st) && st.store_view() == self.template_view(name) && st.consistent()
        } else {
            r matches Err(e) && e == Error::NoSuchStore
        }
    }

    fn get(&self, name: &String) -> (r: Result<MemoryStore, Error>)
    {
        match self.find(name) {
            Some(i) => {
                let st = self.stores[i].1.snapshot();
                proof {
                    self.lemma_template(name@, i as int);
                }
                Ok(st)
            }
            None => Err(Error::NoSuchStore),
        }
    }

    fn is_defined(&self, store_name: &String) -> (b: bool) {
        self.find(store_name).is_some()
    }

    fn summary(&self, store_name: &String) -> (r: Option<String>) {
        match self.find(store_name) {
            Some(_) => Some("in-memory store".to_string()),
            None => None,
        }
    }
}

impl MemoryStoreManager {
    /// The contents registered under `name` (the first match), or the empty
    /// map if the name is unknown.
    pub closed spec fn template_view(self, name: Seq<char>) -> Map<Seq<char>, Seq<u8>> {
        if self.defined(name) {
            let i = self.first_index(name);
            self.stores@[i].1.store_view()
        } else {
            Map::empty()
        }
    }

    /// The least index registered under `name`.
    spec fn first_index(self, name: Seq<char>) -> int {
        choose|i: int| 0 <= i < self.stores@.len() && (#[trigger] self.stores@[i].0)@ == name
            && forall|j: int| 0 <= j < i ==> (#[trigger] self.stores@[j].0)@ != name
    }

    /// `find` returns the least matching index, which defines the template.
    proof fn lemma_template(self, name: Seq<char>, i: int)
        requires
            0 <= i < self.stores@.len(),
            self.stores@[i].0@ == name,
            forall|j: int| 0 <= j < i ==> (#[trigger] self.stores@[j].0)@ != name,
        ensures
            self.template_view(name) == self.stores@[i].1.store_view(),
    {
        assert(self.defined(name));
        let w = self.first_index(name);
        assert(0 <= w < self.stores@.len() && self.stores@[w].0@ == name
            && forall|j: int| 0 <= j < w ==> (#[trigger] self.stores@[j].0)@ != name);
        if w < i {
            assert(self.stores@[w].0@ != name);
        }
        if i < w {
            assert(self.stores@[i].0@ != name);
        }
    }
}

impl MemoryStore {
    /// An independent copy of this store's current contents.
    pub fn snapshot(&self) -> (r: MemoryStore)
        ensures
            r.store_view() == self.store_view(),
    {
        proof {
            use_type_invariant(self);
        }
        let mut entries: Vec<(String, Vec<u8>)> = Vec::new();
        let mut i: usize = 0;
        while i < self.entries.len()
            invariant
                i <= self.entries@.len(),
                entries@.len() == i,
                forall|j: int| 0 <= j < i ==> (#[trigger] entries@[j]).0@ == self.entries@[j].0@
                    && entries@[j].1@ == self.entries@[j].1@,
            decreases self.entries@.len() - i,
        {
            entries.push((self.entries[i].0.clone(), clone_bytes(&self.entries[i].1)));
            i = i + 1;
        }
        let r = MemoryStore { entries };
        proof {
            lemma_kv_map_congruence(r.entries@, self.entries@);
        }
        r
    }
}

/// Two association lists with pairwise view-equal entries describe one map.
proof fn lemma_kv_map_congruence(a: Seq<(String, Vec<u8>)>, b: Seq<(String, Vec<u8>)>)
    requires
        a.len() == b.len(),
        forall|j: int| 0 <= j < a.len() ==> (#[trigger] a[j]).0@ == b[j].0@ && a[j].1@ == b[j].1@,
    ensures
        kv_map(a) == kv_map(b),
    decreases a.len(),
{
    if a.len() > 0 {
        lemma_kv_map_congruence(a.drop_last(), b.drop_last());
        assert(kv_map(a) =~= kv_map(b));
    }
}

} // verus!
