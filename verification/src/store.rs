//! The in-memory client store and its invariant.

use crate::models::{Client, ClientId};
use std::collections::HashMap;
use vstd::hash_map::StringHashMap;
use vstd::prelude::*;

verus! {

broadcast use vstd::std_specs::hash::group_hash_axioms;

/// All clients by id, an index from document number to id, the id counter
/// and the counter of written balance files.
pub struct InMemoryStore {
    pub clients: HashMap<ClientId, Client>,
    pub document_index: StringHashMap<ClientId>,
    pub next_client_id: ClientId,
    pub file_counter: u64,
}

impl InMemoryStore {
    /// Whether a client with this id exists.
    pub open spec fn has_client(&self, id: ClientId) -> bool {
        self.clients@.contains_key(id)
    }

    /// The client with this id.
    pub open spec fn client(&self, id: ClientId) -> Client {
        self.clients@[id]
    }

    /// Whether some client holds this document number.
    pub open spec fn has_document(&self, doc: Seq<char>) -> bool {
        self.document_index@.contains_key(doc)
    }

    /// The store invariant:
    /// - ids are handed out densely, so the clients are exactly those with ids `1..=next_client_id`;
    /// - each client is stored under its own id and has a valid balance;
    /// - the document index and the clients agree both ways, so no two
    ///   clients share a document number.
    pub open spec fn wf(&self) -> bool {
        &&& forall|id: ClientId| #[trigger] self.has_client(id) <==> 1 <= id <= self.next_client_id
        &&& forall|id: ClientId| #[trigger] self.has_client(id) ==> {
            &&& self.client(id).id == id
            &&& self.client(id).balance.wf()
            &&& self.has_document(self.client(id).document_number@)
            &&& self.document_index@[self.client(id).document_number@] == id
        }
        &&& forall|doc: Seq<char>| #[trigger] self.has_document(doc) ==> {
            &&& self.has_client(self.document_index@[doc])
            &&& self.client(self.document_index@[doc]).document_number@ == doc
        }
    }

    /// The invariant speaks of the clients, the index and the id counter only.
    pub proof fn lemma_wf_from_contents(&self, other: &InMemoryStore)
        requires
            self.wf(),
            other.clients@ == self.clients@,
            other.document_index@ == self.document_index@,
            other.next_client_id == self.next_client_id,
        ensures
            other.wf(),
    {
        assert forall|id: ClientId| #[trigger] other.has_client(id) <==> 1 <= id <= other.next_client_id by {
            assert(self.has_client(id) <==> 1 <= id <= self.next_client_id);
        }
        assert forall|id: ClientId| #[trigger] other.has_client(id) implies {
            &&& other.client(id).id == id
            &&& other.client(id).balance.wf()
            &&& other.has_document(other.client(id).document_number@)
            &&& other.document_index@[other.client(id).document_number@] == id
        } by {
            assert(self.has_client(id));
        }
        assert forall|d: Seq<char>| #[trigger] other.has_document(d) implies {
            &&& other.has_client(other.document_index@[d])
            &&& other.client(other.document_index@[d]).document_number@ == d
        } by {
            assert(self.has_document(d));
        }
    }

    /// An empty store: no clients, both counters at zero.
    pub fn new() -> (s: InMemoryStore)
        ensures
            s.wf(),
            s.clients@ == Map::<ClientId, Client>::empty(),
            s.document_index@ == Map::<Seq<char>, ClientId>::empty(),
            s.next_client_id == 0,
            s.file_counter == 0,
    {
        InMemoryStore {
            clients: HashMap::new(),
            document_index: StringHashMap::new(),
            next_client_id: 0,
            file_counter: 0,
        }
    }

    /// Hands out the next client id: the counter moves up by one and its new value is returned.
    pub fn next_id(&mut self) -> (id: ClientId)
        requires
            old(self).next_client_id < ClientId::MAX,
        ensures
            id == old(self).next_client_id + 1,
            final(self).next_client_id == id,
            final(self).clients@ == old(self).clients@,
            final(self).document_index@ == old(self).document_index@,
            final(self).file_counter == old(self).file_counter,
    {
        self.next_client_id = self.next_client_id + 1;
        self.next_client_id
    }
}

impl Default for InMemoryStore {
    fn default() -> (s: InMemoryStore)
        ensures
            s.wf(),
            s.clients@ == Map::<ClientId, Client>::empty(),
            s.document_index@ == Map::<Seq<char>, ClientId>::empty(),
            s.next_client_id == 0,
            s.file_counter == 0,
    {
        InMemoryStore::new()
    }
}

} // verus!
