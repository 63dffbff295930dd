//! The operations of the service on the in-memory store: registering
//! clients, reading a balance, and applying credit and debit transactions.

use crate::config::AppConfig;
use crate::errors::AppError;
use crate::models::{
    Client, ClientBalanceResponse, ClientId, NewClientRequest, NewClientResponse,
    TransactionRequest, TransactionResponse,
};
use crate::money::Money;
use crate::store::InMemoryStore;
use crate::text::{is_blank, trims_to_empty};
use vstd::prelude::*;

verus! {

broadcast use vstd::std_specs::hash::group_hash_axioms;

/// Two stores hold the same clients, index and counters.
pub open spec fn same_contents(a: &InMemoryStore, b: &InMemoryStore) -> bool {
    &&& a.clients@ == b.clients@
    &&& a.document_index@ == b.document_index@
    &&& a.next_client_id == b.next_client_id
    &&& a.file_counter == b.file_counter
}

/// `after` is `before` with the balance of client `id` set to `balance` and nothing else changed.
pub open spec fn balance_set(before: &InMemoryStore, after: &InMemoryStore, id: ClientId, balance: Money) -> bool {
    &&& after.clients@ == before.clients@.insert(id, Client { balance: balance, ..before.client(id) })
    &&& after.document_index@ == before.document_index@
    &&& after.next_client_id == before.next_client_id
    &&& after.file_counter == before.file_counter
}

/// The first problem with the data of a registration, as its error message:
/// the fields are checked in order and a field is refused when it is blank.
pub open spec fn client_data_problem(request: &NewClientRequest) -> Option<Seq<char>> {
    if is_blank(request.client_name@) {
        Some("client_name cannot be empty"@)
    } else if is_blank(request.birth_date@) {
        Some("birth_date cannot be empty"@)
    } else if is_blank(request.document_number@) {
        Some("document_number cannot be empty"@)
    } else if is_blank(request.country@) {
        Some("country cannot be empty"@)
    } else {
        None
    }
}

/// The client that a successful registration stores under `id`.
pub open spec fn registered_client(id: ClientId, request: NewClientRequest) -> Client {
    Client {
        id: id,
        client_name: request.client_name,
        birth_date: request.birth_date,
        document_number: request.document_number,
        country: request.country,
        balance: Money::spec_zero(),
    }
}

/// What a registration does: refuse blank data, then a document number
/// that is already registered; otherwise store the client under the next id
/// with a zero balance, index its document number, and answer with the id.
pub open spec fn registration_outcome(
    before: &InMemoryStore,
    after: &InMemoryStore,
    request: NewClientRequest,
    r: Result<NewClientResponse, AppError>,
) -> bool {
    if client_data_problem(&request) is Some {
        &&& r matches Err(e)
        &&& e matches AppError::InvalidClientData(m)
        &&& m@ == client_data_problem(&request)->0
        &&& same_contents(before, after)
    } else if before.has_document(request.document_number@) {
        &&& r matches Err(e)
        &&& e matches AppError::DuplicateDocumentNumber
        &&& same_contents(before, after)
    } else {
        let id = (before.next_client_id + 1) as ClientId;
        &&& r matches Ok(resp)
        &&& resp.client_id == id
        &&& after.next_client_id == id
        &&& after.clients@ == before.clients@.insert(id, registered_client(id, request))
        &&& after.document_index@ == before.document_index@.insert(request.document_number@, id)
        &&& after.file_counter == before.file_counter
    }
}

fn invalid_client_data(message: &str) -> (e: AppError)
    ensures
        e matches AppError::InvalidClientData(m) && m@ == message@,
{
    AppError::InvalidClientData(String::from_str(message))
}

/// Checks that no field of a registration is blank.
pub fn validate_client_request(request: &NewClientRequest) -> (r: Result<(), AppError>)
    ensures
        r is Ok <==> client_data_problem(request) is None,
        r matches Err(e) ==> e matches AppError::InvalidClientData(m) && m@
            == client_data_problem(request)->0,
{
    if trims_to_empty(request.client_name.as_str()) {
        return Err(invalid_client_data("client_name cannot be empty"));
    }
    if trims_to_empty(request.birth_date.as_str()) {
        return Err(invalid_client_data("birth_date cannot be empty"));
    }
    if trims_to_empty(request.document_number.as_str()) {
        return Err(invalid_client_data("document_number cannot be empty"));
    }
    if trims_to_empty(request.country.as_str()) {
        return Err(invalid_client_data("country cannot be empty"));
    }
    Ok(())
}

/// Registers a client: its data must not be blank and its document number
/// must not be taken; it gets the next id and a zero balance.
pub fn create_client(store: &mut InMemoryStore, request: NewClientRequest) -> (r: Result<NewClientResponse, AppError>)
    requires
        old(store).wf(),
        old(store).next_client_id < ClientId::MAX,
    ensures
        final(store).wf(),
        registration_outcome(old(store), final(store), request, r),
{
    match validate_client_request(&request) {
        Err(e) => return Err(e),
        Ok(()) => {},
    }
    if store.document_index.contains_key(request.document_number.as_str()) {
        return Err(AppError::DuplicateDocumentNumber);
    }
    let ghost old_store = *store;
    let ghost req = request;
    let client_id = store.next_id();
    let client = Client {
        id: client_id,
        client_name: request.client_name,
        birth_date: request.birth_date,
        document_number: request.document_number,
        country: request.country,
        balance: Money::zero(),
    };
    assert(client == registered_client(client_id, req));
    store.document_index.insert(client.document_number.clone(), client_id);
    store.clients.insert(client_id, client);
    proof {
        let doc = req.document_number@;
        assert forall|id: ClientId| #[trigger] store.has_client(id) <==> 1 <= id <= store.next_client_id by {
            if id != client_id {
                assert(old_store.has_client(id) <==> 1 <= id <= old_store.next_client_id);
            }
        }
        assert forall|id: ClientId| #[trigger] store.has_client(id) implies {
            &&& store.client(id).id == id
            &&& store.client(id).balance.wf()
            &&& store.has_document(store.client(id).document_number@)
            &&& store.document_index@[store.client(id).document_number@] == id
        } by {
            if id != client_id {
                assert(old_store.has_client(id));
                assert(old_store.has_document(old_store.client(id).document_number@));
            }
        }
        assert forall|d: Seq<char>| #[trigger] store.has_document(d) implies {
            &&& store.has_client(store.document_index@[d])
            &&& store.client(store.document_index@[d]).document_number@ == d
        } by {
            if d != doc {
                assert(old_store.has_document(d));
            }
        }
    }
    Ok(NewClientResponse { client_id })
}

/// Looks a client up by id and answers with its data and balance.
pub fn client_balance(store: &InMemoryStore, user_id: ClientId) -> (r: Result<ClientBalanceResponse, AppError>)
    ensures
        !store.has_client(user_id) ==> (r matches Err(e) && e matches AppError::ClientNotFound),
        store.has_client(user_id) ==> (r matches Ok(resp) && {
            let c = store.client(user_id);
            &&& resp.client_name == c.client_name
            &&& resp.birth_date == c.birth_date
            &&& resp.document_number == c.document_number
            &&& resp.country == c.country
            &&& resp.balance == c.balance
        }),
{
    match store.clients.get(&user_id) {
        None => Err(AppError::ClientNotFound),
        Some(client) => Ok(
            ClientBalanceResponse {
                client_name: client.client_name.clone(),
                birth_date: client.birth_date.clone(),
                document_number: client.document_number.clone(),
                country: client.country.clone(),
                balance: client.balance,
            },
        ),
    }
}

/// A transaction amount must be strictly positive.
pub fn validate_amount(amount: Money) -> (r: Result<(), AppError>)
    requires
        amount.wf(),
    ensures
        r is Ok <==> amount.mantissa > 0,
        r matches Err(e) ==> e matches AppError::InvalidAmount,
{
    let zero = Money::zero();
    proof { amount.lemma_compare_with_zero(); }
    if amount.le(&zero) {
        return Err(AppError::InvalidAmount);
    }
    Ok(())
}

/// A credit of a valid amount to an existing client does not overflow the balance.
pub open spec fn credit_fits(store: &InMemoryStore, request: TransactionRequest) -> bool {
    request.amount.mantissa > 0 && store.has_client(request.client_id)
        ==> store.client(request.client_id).balance.plus(request.amount) is Some
}

/// A debit of a valid amount from an existing client above the limit does not overflow the balance.
pub open spec fn debit_fits(store: &InMemoryStore, request: TransactionRequest, limit: Money) -> bool {
    request.amount.mantissa > 0 && store.has_client(request.client_id)
        && !store.client(request.client_id).balance.value_le(limit)
        ==> store.client(request.client_id).balance.minus(request.amount) is Some
}

/// What a credit does: refuse a non-positive amount, then an unknown client;
/// otherwise add the amount to the balance and answer with the new balance.
pub open spec fn credit_outcome(
    before: &InMemoryStore,
    after: &InMemoryStore,
    request: TransactionRequest,
    r: Result<TransactionResponse, AppError>,
) -> bool {
    if request.amount.mantissa <= 0 {
        r == Err::<TransactionResponse, AppError>(AppError::InvalidAmount) && same_contents(before, after)
    } else if !before.has_client(request.client_id) {
        r == Err::<TransactionResponse, AppError>(AppError::ClientNotFound) && same_contents(before, after)
    } else {
        let balance = before.client(request.client_id).balance.plus(request.amount)->0;
        &&& r == Ok::<TransactionResponse, AppError>(TransactionResponse { balance: balance })
        &&& balance_set(before, after, request.client_id, balance)
    }
}

/// What a debit does: refuse a non-positive amount, then an unknown client,
/// then a balance already at or below the limit, then a new balance below the
/// limit; otherwise store the new balance and answer with it.
pub open spec fn debit_outcome(
    before: &InMemoryStore,
    after: &InMemoryStore,
    request: TransactionRequest,
    limit: Money,
    r: Result<TransactionResponse, AppError>,
) -> bool {
    if request.amount.mantissa <= 0 {
        r == Err::<TransactionResponse, AppError>(AppError::InvalidAmount) && same_contents(before, after)
    } else if !before.has_client(request.client_id) {
        r == Err::<TransactionResponse, AppError>(AppError::ClientNotFound) && same_contents(before, after)
    } else if before.client(request.client_id).balance.value_le(limit) {
        r == Err::<TransactionResponse, AppError>(AppError::OverdraftLimitExceeded) && same_contents(before, after)
    } else {
        let balance = before.client(request.client_id).balance.minus(request.amount)->0;
        if balance.value_lt(limit) {
            r == Err::<TransactionResponse, AppError>(AppError::OverdraftLimitExceeded) && same_contents(before, after)
        } else {
            &&& r == Ok::<TransactionResponse, AppError>(TransactionResponse { balance: balance })
            &&& balance_set(before, after, request.client_id, balance)
        }
    }
}

/// Replaces the balance of an existing client.
fn set_balance(store: &mut InMemoryStore, id: ClientId, balance: Money)
    requires
        old(store).wf(),
        old(store).has_client(id),
        balance.wf(),
    ensures
        final(store).wf(),
        balance_set(old(store), final(store), id, balance),
{
    let ghost old_store = *store;
    let removed = store.clients.remove(&id);
    match removed {
        Some(mut client) => {
            client.balance = balance;
            store.clients.insert(id, client);
        },
        None => {},
    }
    proof {
        assert(store.clients@ =~= old_store.clients@.insert(id, Client { balance: balance, ..old_store.client(id) }));
        assert forall|i: ClientId| #[trigger] store.has_client(i) <==> 1 <= i <= store.next_client_id by {
            assert(old_store.has_client(i) <==> 1 <= i <= old_store.next_client_id);
        }
        assert forall|i: ClientId| #[trigger] store.has_client(i) implies {
            &&& store.client(i).id == i
            &&& store.client(i).balance.wf()
            &&& store.has_document(store.client(i).document_number@)
            &&& store.document_index@[store.client(i).document_number@] == i
        } by {
            assert(old_store.has_client(i));
        }
        assert forall|d: Seq<char>| #[trigger] store.has_document(d) implies {
            &&& store.has_client(store.document_index@[d])
            &&& store.client(store.document_index@[d]).document_number@ == d
        } by {
            assert(old_store.has_document(d));
        }
    }
}

/// Credits `request.amount` to the client's balance.
pub fn apply_credit(store: &mut InMemoryStore, request: TransactionRequest) -> (r: Result<TransactionResponse, AppError>)
    requires
        old(store).wf(),
        request.amount.wf(),
        credit_fits(old(store), request),
    ensures
        final(store).wf(),
        credit_outcome(old(store), final(store), request, r),
        request.amount.mantissa > 0 && old(store).has_client(request.client_id)
            && old(store).client(request.client_id).balance.mantissa == 0
            ==> r == Ok::<TransactionResponse, AppError>(TransactionResponse { balance: request.amount }),
{
    match validate_amount(request.amount) {
        Err(e) => return Err(e),
        Ok(()) => {},
    }
    let balance = match store.clients.get(&request.client_id) {
        None => return Err(AppError::ClientNotFound),
        Some(client) => {
            proof { assert(store.has_client(request.client_id)); }
            client.balance
        },
    };
    match balance.checked_add(&request.amount) {
        None => Err(AppError::InternalError),
        Some(new_balance) => {
            set_balance(store, request.client_id, new_balance);
            Ok(TransactionResponse { balance: new_balance })
        },
    }
}

/// Debits `request.amount` from the client's balance, keeping it at or above
/// the configured overdraft limit.
pub fn apply_debit(store: &mut InMemoryStore, config: &AppConfig, request: TransactionRequest) -> (r: Result<TransactionResponse, AppError>)
    requires
        old(store).wf(),
        config.wf(),
        request.amount.wf(),
        debit_fits(old(store), request, config.max_negative_balance),
    ensures
        final(store).wf(),
        debit_outcome(old(store), final(store), request, config.max_negative_balance, r),
        r is Ok && old(store).client(request.client_id).balance.mantissa == 0
            ==> r == Ok::<TransactionResponse, AppError>(TransactionResponse { balance: request.amount.negated() }),
{
    match validate_amount(request.amount) {
        Err(e) => return Err(e),
        Ok(()) => {},
    }
    let balance = match store.clients.get(&request.client_id) {
        None => return Err(AppError::ClientNotFound),
        Some(client) => {
            proof { assert(store.has_client(request.client_id)); }
            client.balance
        },
    };
    let limit = config.max_negative_balance;
    if balance.le(&limit) {
        return Err(AppError::OverdraftLimitExceeded);
    }
    match balance.checked_sub(&request.amount) {
        None => Err(AppError::InternalError),
        Some(new_balance) => {
            if new_balance.lt(&limit) {
                return Err(AppError::OverdraftLimitExceeded);
            }
            set_balance(store, request.client_id, new_balance);
            Ok(TransactionResponse { balance: new_balance })
        },
    }
}

} // verus!
