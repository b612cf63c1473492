//! A store manager which delegates to other managers based on the store name.
//!
//! A pure routing layer: it holds a mapping from name to an inner manager and
//! forwards `get`, `is_defined` and `summary` to the manager owning the name,
//! with `NoSuchStore` for a name no entry owns.  It keeps no state of its own
//! beyond the mapping built at construction.

use vstd::prelude::*;
use crate::errors::Error;
use crate::store::StoreManager;

verus! {

/// Routes each store name to the inner manager registered under it.
pub struct DelegatingStoreManager<M> {
    delegates: Vec<(String, M)>,
}

impl<M> DelegatingStoreManager<M> {
    /// Builds the routing table; the first entry under a name wins.
    pub fn new(delegates: Vec<(String, M)>) -> (r: Self)
        ensures
            r.routes() == delegates@,
    {
        DelegatingStoreManager { delegates }
    }

    /// The routing table.
    pub closed spec fn routes(self) -> Seq<(String, M)> {
        self.delegates@
    }

    /// The least index routing `name`, where one exists.
    pub closed spec fn route_index(self, name: Seq<char>) -> int {
        choose|i: int|
            0 <= i < self.routes().len() && (#[trigger] self.routes()[i].0)@ == name
                && forall|j: int| 0 <= j < i ==> (#[trigger] self.routes()[j].0)@ != name
    }

    /// The inner manager owning `name`, where one exists: the one under the
    /// first routing entry carrying that name.
    pub open spec fn route_owner(self, name: Seq<char>) -> M {
        self.routes()[self.route_index(name)].1
    }

    /// The first match in the routing table is the owner.
    proof fn lemma_route_owner(self, name: Seq<char>, i: int)
        requires
            0 <= i < self.routes().len(),
            self.routes()[i].0@ == name,
            forall|j: int| 0 <= j < i ==> (#[trigger] self.routes()[j].0)@ != name,
        ensures
            self.route_owner(name) == self.routes()[i].1,
    {
        let w = self.route_index(name);
        assert(0 <= w < self.routes().len() && self.routes()[w].0@ == name
            && forall|j: int| 0 <= j < w ==> (#[trigger] self.routes()[j].0)@ != name);
        if w < i {
            assert(self.routes()[w].0@ != name);
        }
        if i < w {
            assert(self.routes()[i].0@ != name);
        }
    }

    /// The index of the first entry under `name`, if any.
    fn find(&self, name: &String) -> (r: Option<usize>)
        ensures
            r matches Some(i) ==> i < self.routes().len() && self.routes()[i as int].0@ == name@
                && forall|j: int| 0 <= j < i ==> (#[trigger] self.routes()[j].0)@ != name@,
            r is None ==> forall|i: int| 0 <= i < self.routes().len()
                ==> (#[trigger] self.routes()[i].0)@ != name@,
    {
        let mut i: usize = 0;
        while i < self.delegates.len()
            invariant
                i <= self.delegates@.len(),
                forall|j: int| 0 <= j < i ==> (#[trigger] self.delegates@[j].0)@ != name@,
            decreases self.delegates@.len() - i,
        {
            if self.delegates[i].0.eq(name) {
                return Some(i);
            }
            i = i + 1;
        }
        None
    }
}

impl<M: StoreManager> StoreManager for DelegatingStoreManager<M> {
    type St = M::St;

    open spec fn defined(self, name: Seq<char>) -> bool {
        exists|i: int| 0 <= i < self.routes().len() && (#[trigger] self.routes()[i].0)@ == name
    }

    /// An owned name's result is the owning inner manager's own result,
    /// handed through unchanged; a name no entry owns is `NoSuchStore`.
    open spec fn resolves(self, name: Seq<char>, r: Result<M::St, Error>) -> bool {
        if self.defined(name) {
            self.route_owner(name).resolves(name, r)
        } else {
            r matches Err(e) && e == Error::NoSuchStore
        }
    }

    fn get(&self, name: &String) -> (r: Result<M::St, Error>) {
        match self.find(name) {
            Some(i) => {
                proof {
                    self.lemma_route_owner(name@, i as int);
                }
                self.delegates[i].1.get(name)
            }
            None => Err(Error::NoSuchStore),
        }
    }

    fn is_defined(&self, store_name: &String) -> (b: bool) {
        self.find(store_name).is_some()
    }

    fn summary(&self, store_name: &String) -> (r: Option<String>) {
        match self.find(store_name) {
            Some(i) => self.delegates[i].1.summary(store_name),
            None => None,
        }
    }
}

} // verus!
