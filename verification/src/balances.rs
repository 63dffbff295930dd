//! The balance snapshot: every client's balance is written to a file and the
//! in-memory balances are then set back to zero.
//!
//! The operation is split where the file is written: `begin_store_balances`
//! takes the snapshot and numbers the file, the caller writes it, and
//! `finish_store_balances` resets the balances once the write has succeeded.

use crate::errors::AppError;
use crate::models::{Client, ClientId, StoreBalancesResponse};
use crate::money::Money;
use crate::services::same_contents;
use crate::store::InMemoryStore;
use vstd::prelude::*;

verus! {

broadcast use vstd::std_specs::hash::group_hash_axioms;

/// A map whose keys are exactly `1..=n` has `n` entries.
pub proof fn lemma_dense_map_len<V>(m: Map<ClientId, V>, n: ClientId)
    requires
        forall|id: ClientId| #[trigger] m.contains_key(id) <==> 1 <= id <= n,
    ensures
        m.dom().finite(),
        m.len() == n,
    decreases n,
{
    if n == 0 {
        assert(m.dom() =~= Set::<ClientId>::empty());
    } else {
        let smaller = m.remove(n);
        assert forall|id: ClientId| #[trigger] smaller.contains_key(id) <==> 1 <= id <= (n - 1) as ClientId by {}
        lemma_dense_map_len(smaller, (n - 1) as ClientId);
        assert(m.dom() =~= smaller.dom().insert(n));
    }
}

/// The number of clients in a well-formed store is the last id handed out.
pub proof fn lemma_client_count(store: &InMemoryStore)
    requires
        store.wf(),
    ensures
        store.clients@.dom().finite(),
        store.clients@.len() == store.next_client_id,
{
    assert forall|id: ClientId| #[trigger] store.clients@.contains_key(id) <==> 1 <= id <= store.next_client_id by {
        assert(store.has_client(id) <==> 1 <= id <= store.next_client_id);
    }
    lemma_dense_map_len(store.clients@, store.next_client_id);
}

/// The clients of a store in order of id.
pub open spec fn snapshot_of(store: &InMemoryStore, snapshot: Seq<Client>) -> bool {
    &&& snapshot.len() == store.next_client_id
    &&& forall|i: int| 0 <= i < snapshot.len() ==> #[trigger] snapshot[i] == store.client((i + 1) as ClientId)
}

/// Starts a snapshot: refused when the store has no client; otherwise the
/// file counter moves up by one and the clients are copied out in order of
/// id, together with the new counter that numbers the file.
pub fn begin_store_balances(store: &mut InMemoryStore) -> (r: Result<(Vec<Client>, u64), AppError>)
    requires
        old(store).wf(),
        old(store).clients@.len() > 0 ==> old(store).file_counter < u64::MAX,
    ensures
        final(store).wf(),
        final(store).clients@ == old(store).clients@,
        final(store).document_index@ == old(store).document_index@,
        final(store).next_client_id == old(store).next_client_id,
        old(store).clients@.len() == 0 ==> {
            &&& r matches Err(e)
            &&& e matches AppError::StorageError(m)
            &&& m@ == "Cannot store balances because there are no clients"@
            &&& final(store).file_counter == old(store).file_counter
            &&& same_contents(old(store), final(store))
        },
        old(store).clients@.len() > 0 ==> {
            &&& r matches Ok(res)
            &&& res.1 == old(store).file_counter + 1
            &&& final(store).file_counter == res.1
            &&& snapshot_of(old(store), res.0@)
        },
{
    proof { lemma_client_count(store); }
    if store.clients.is_empty() {
        return Err(AppError::StorageError(String::from_str("Cannot store balances because there are no clients")));
    }
    proof {
        assert(store.has_client(1));
    }
    let n = store.next_client_id;
    let mut snapshot: Vec<Client> = Vec::new();
    let mut i: u64 = 0;
    while i < n
        invariant
            store.wf(),
            n == store.next_client_id,
            i <= n,
            snapshot@.len() == i,
            forall|j: int| 0 <= j < i ==> #[trigger] snapshot@[j] == store.client((j + 1) as ClientId),
        decreases n - i,
    {
        let id = i + 1;
        proof { assert(store.has_client(id)); }
        match store.clients.get(&id) {
            Some(client) => snapshot.push(client.duplicate()),
            None => {},
        }
        i = id;
    }
    let ghost before = *store;
    store.file_counter = store.file_counter + 1;
    proof { before.lemma_wf_from_contents(store); }
    let counter = store.file_counter;
    Ok((snapshot, counter))
}

/// Every client keeps its data but has a zero balance.
pub open spec fn balances_reset(before: &InMemoryStore, after: &InMemoryStore) -> bool {
    &&& after.clients@.dom() == before.clients@.dom()
    &&& forall|id: ClientId| #[trigger] before.has_client(id) ==> after.client(id) == Client {
        balance: Money::spec_zero(),
        ..before.client(id)
    }
    &&& after.document_index@ == before.document_index@
    &&& after.next_client_id == before.next_client_id
    &&& after.file_counter == before.file_counter
}

/// Finishes a snapshot after its file was written: all balances go back to
/// zero, and the answer names the file and counts the stored clients.
pub fn finish_store_balances(store: &mut InMemoryStore, file_name: String) -> (r: StoreBalancesResponse)
    requires
        old(store).wf(),
    ensures
        final(store).wf(),
        balances_reset(old(store), final(store)),
        r.file_name == file_name,
        r.stored_clients == old(store).clients@.len(),
        r.stored_clients == old(store).next_client_id,
{
    let ghost old_store = *store;
    let n = store.next_client_id;
    let mut i: u64 = 0;
    while i < n
        invariant
            n == store.next_client_id,
            n == old_store.next_client_id,
            i <= n,
            old_store.wf(),
            store.clients@.dom() == old_store.clients@.dom(),
            store.document_index@ == old_store.document_index@,
            store.file_counter == old_store.file_counter,
            forall|id: ClientId| #[trigger] old_store.has_client(id) ==> store.client(id) == (if id <= i {
                Client { balance: Money::spec_zero(), ..old_store.client(id) }
            } else {
                old_store.client(id)
            }),
        decreases n - i,
    {
        let id = i + 1;
        let ghost before = store.clients@;
        proof { assert(old_store.has_client(id)); }
        let removed = store.clients.remove(&id);
        match removed {
            Some(mut client) => {
                client.balance = Money::zero();
                store.clients.insert(id, client);
            },
            None => {},
        }
        proof {
            assert(store.clients@ =~= before.insert(id, Client { balance: Money::spec_zero(), ..before[id] }));
            assert(store.clients@.dom() =~= old_store.clients@.dom());
        }
        i = id;
    }
    proof {
        assert forall|id: ClientId| #[trigger] store.has_client(id) <==> 1 <= id <= store.next_client_id by {
            assert(old_store.has_client(id) <==> 1 <= id <= old_store.next_client_id);
        }
        assert forall|id: ClientId| #[trigger] store.has_client(id) implies {
            &&& store.client(id).id == id
            &&& store.client(id).balance.wf()
            &&& store.has_document(store.client(id).document_number@)
            &&& store.document_index@[store.client(id).document_number@] == id
        } by {
            assert(old_store.has_client(id));
        }
        assert forall|d: Seq<char>| #[trigger] store.has_document(d) implies {
            &&& store.has_client(store.document_index@[d])
            &&& store.client(store.document_index@[d]).document_number@ == d
        } by {
            assert(old_store.has_document(d));
        }
    }
    let stored = store.clients.len();
    proof { lemma_client_count(&old_store); lemma_client_count(store); }
    StoreBalancesResponse { file_name, stored_clients: stored as u64 }
}

} // verus!
