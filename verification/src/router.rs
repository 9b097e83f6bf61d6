use crate::assoc::bytes_equal;
use crate::codec::registry::Registry;
use crate::selection::selector::{selector_view, Selector};
use crate::selection::subscription::Subscription;
use crate::storage::Store;
use std::sync::Arc;
use vstd::prelude::*;

verus! {

/// The state that all connections share: the ids of the connected clients, the
/// selector, the registry of schemas and the store.
pub struct Router {
    pub clients: Vec<Vec<u8>>,
    pub selector: Selector,
    pub registry: Registry,
    pub store: Store,
}

/// The ids of the clients, as byte sequences.
pub open spec fn client_ids(clients: Seq<Vec<u8>>) -> Seq<Seq<u8>> {
    clients.map_values(|c: Vec<u8>| c@)
}

impl Router {
    /// Each client id is held once.
    pub open spec fn wf(&self) -> bool {
        client_ids(self.clients@).no_duplicates()
    }

    /// Whether a client with this id is connected.
    pub open spec fn has_client(&self, id: Seq<u8>) -> bool {
        client_ids(self.clients@).contains(id)
    }

    /// A router with no clients, an empty selector and registry, and an empty
    /// store that may count up to `max_length` bytes.
    pub fn new(max_length: usize) -> (router: Router)
        ensures
            router.wf(),
            forall|x: Seq<u8>| !router.has_client(x),
            selector_view(router.selector@).len() == 0,
            router.registry.view().len() == 0,
            router.registry.wf(),
            router.store.max_length == max_length,
            router.store.length == 0,
            router.store.current == 0,
            router.store.messages().is_empty(),
    {
        let router = Router {
            clients: Vec::new(),
            selector: Vec::new(),
            store: Store::new(max_length),
            registry: Registry::new(),
        };
        assert(client_ids(router.clients@) =~= Seq::<Seq<u8>>::empty());
        router
    }

    /// The position of a client id, if it is held.
    fn find_client(&self, id: &Vec<u8>) -> (index: Option<usize>)
        ensures
            match index {
                Some(i) => i < self.clients@.len() && self.clients@[i as int]@ == id@,
                None => !client_ids(self.clients@).contains(id@),
            },
    {
        let mut i: usize = 0;
        while i < self.clients.len()
            invariant
                i <= self.clients@.len(),
                forall|j: int| 0 <= j < i ==> self.clients@[j]@ != id@,
            decreases self.clients@.len() - i,
        {
            if bytes_equal(self.clients[i].as_slice(), id.as_slice()) {
                return Some(i);
            }
            i = i + 1;
        }
        assert forall|j: int| 0 <= j < client_ids(self.clients@).len() implies client_ids(
            self.clients@,
        )[j] != id@ by {}
        None
    }

    /// Registers a connected client by its id; a client already registered
    /// stays as it is.
    pub fn add_client(&mut self, id: Vec<u8>)
        requires
            old(self).wf(),
        ensures
            final(self).wf(),
            forall|x: Seq<u8>| final(self).has_client(x) <==> (old(self).has_client(x) || x == id@),
            final(self).selector == old(self).selector,
            final(self).registry == old(self).registry,
            final(self).store == old(self).store,
    {
        let ghost old_ids = client_ids(self.clients@);
        match self.find_client(&id) {
            Some(i) => {
                assert(old_ids[i as int] == id@);
            },
            None => {
                let ghost v = id@;
                self.clients.push(id);
                proof {
                    let new_ids = client_ids(self.clients@);
                    assert(new_ids =~= old_ids.push(v));
                    assert(new_ids[old_ids.len() as int] == v);
                    assert forall|x: Seq<u8>| new_ids.contains(x) <==> (old_ids.contains(x) || x == v) by {
                        if old_ids.contains(x) {
                            let j = choose|j: int| 0 <= j < old_ids.len() && old_ids[j] == x;
                            assert(new_ids[j] == x);
                        }
                    }
                }
            },
        }
    }

    /// Unregisters a client that is registered, and takes each of its
    /// subscriptions out of the selector.
    pub fn remove_client(&mut self, id: &Vec<u8>, subscriptions: &Vec<Arc<Subscription>>)
        requires
            old(self).wf(),
            old(self).has_client(id@),
        ensures
            final(self).wf(),
            forall|x: Seq<u8>| final(self).has_client(x) <==> (old(self).has_client(x) && x != id@),
            final(self).selector@ == old(self).selector@,
            final(self).registry == old(self).registry,
            final(self).store == old(self).store,
    {
        let ghost old_ids = client_ids(self.clients@);
        let i = match self.find_client(id) {
            Some(i) => i,
            None => {
                proof {
                    assert(false);
                }
                return;
            },
        };
        self.clients.remove(i);
        proof {
            let new_ids = client_ids(self.clients@);
            assert(new_ids =~= old_ids.remove(i as int));
            assert(old_ids[i as int] == id@);
            assert forall|x: Seq<u8>| new_ids.contains(x) <==> (old_ids.contains(x) && x != id@) by {
                if new_ids.contains(x) {
                    let j = choose|j: int| 0 <= j < new_ids.len() && new_ids[j] == x;
                    if j < i {
                        assert(old_ids[j] == x);
                    } else {
                        assert(old_ids[j + 1] == x);
                    }
                }
                if old_ids.contains(x) && x != id@ {
                    let j = choose|j: int| 0 <= j < old_ids.len() && old_ids[j] == x;
                    if j < i {
                        assert(new_ids[j] == x);
                    } else {
                        assert(new_ids[j - 1] == x);
                    }
                }
            }
            assert forall|a: int, b: int| 0 <= a < new_ids.len() && 0 <= b < new_ids.len() && a != b
                implies new_ids[a] != new_ids[b] by {
                let oa = if a < i { a } else { a + 1 };
                let ob = if b < i { b } else { b + 1 };
                assert(new_ids[a] == old_ids[oa]);
                assert(new_ids[b] == old_ids[ob]);
            }
        }
        let ghost kept = self.clients;
        let mut k: usize = 0;
        while k < subscriptions.len()
            invariant
                self.selector@ == old(self).selector@,
                self.clients == kept,
                self.registry == old(self).registry,
                self.store == old(self).store,
            decreases subscriptions@.len() - k,
        {
            subscriptions[k].disgregate(&mut self.selector);
            k = k + 1;
        }
    }
}

/// A client that was not connected, once added and then removed, leaves the
/// connected clients as they were.
pub proof fn law_add_then_remove_client(
    start: Router,
    added: Router,
    removed: Router,
    id: Seq<u8>,
)
    requires
        !start.has_client(id),
        forall|x: Seq<u8>| added.has_client(x) <==> (start.has_client(x) || x == id),
        forall|x: Seq<u8>| removed.has_client(x) <==> (added.has_client(x) && x != id),
    ensures
        forall|x: Seq<u8>| removed.has_client(x) <==> start.has_client(x),
{
}

} // verus!
