//! Routing of payment events to workers and their processing.
//!
//! Transactions are queued per worker; all events of one client go to the
//! same worker so that they are applied in order. A worker applies an event
//! to the store and answers the request that raised it.

use crate::config::AppConfig;
use crate::errors::AppError;
use crate::models::{ClientId, TransactionRequest, TransactionResponse};
use crate::money::Money;
use crate::services::{
    apply_credit, apply_debit, credit_fits, credit_outcome, debit_fits, debit_outcome,
    same_contents, validate_amount,
};
use crate::store::InMemoryStore;
use vstd::prelude::*;

verus! {

broadcast use vstd::std_specs::hash::group_hash_axioms;

/// A transaction waiting for a worker.
#[derive(Debug, Clone, Copy)]
pub enum PaymentEvent {
    CreditRequested { client_id: ClientId, amount: Money },
    DebitRequested { client_id: ClientId, amount: Money },
}

impl PaymentEvent {
    pub open spec fn spec_client_id(self) -> ClientId {
        match self {
            PaymentEvent::CreditRequested { client_id, .. } => client_id,
            PaymentEvent::DebitRequested { client_id, .. } => client_id,
        }
    }

    pub open spec fn spec_request(self) -> TransactionRequest {
        match self {
            PaymentEvent::CreditRequested { client_id, amount } => TransactionRequest { client_id, amount },
            PaymentEvent::DebitRequested { client_id, amount } => TransactionRequest { client_id, amount },
        }
    }

    /// The client the event is about.
    pub fn client_id(&self) -> (id: ClientId)
        ensures
            id == self.spec_client_id(),
    {
        match self {
            PaymentEvent::CreditRequested { client_id, .. } => *client_id,
            PaymentEvent::DebitRequested { client_id, .. } => *client_id,
        }
    }
}

/// The worker that serves a client: its id modulo the number of workers.
pub open spec fn worker_for(client_id: ClientId, worker_count: usize) -> usize {
    ((client_id as usize) % worker_count) as usize
}

/// Picks the worker queue for an event of `client_id` among `worker_count`
/// queues; with no worker at all the dispatch fails.
pub fn select_worker(client_id: ClientId, worker_count: usize) -> (r: Result<usize, AppError>)
    ensures
        worker_count == 0 ==> (r matches Err(e) && e matches AppError::InternalError),
        worker_count > 0 ==> r == Ok::<usize, AppError>(worker_for(client_id, worker_count)),
        r matches Ok(i) ==> i < worker_count,
{
    if worker_count == 0 {
        return Err(AppError::InternalError);
    }
    Ok((client_id as usize) % worker_count)
}

/// What a worker does with an event: the credit or debit it asks for, and an
/// internal error, with the store untouched, where the new balance would
/// overflow the decimal range.
pub open spec fn event_outcome(
    before: &InMemoryStore,
    after: &InMemoryStore,
    config: &AppConfig,
    event: PaymentEvent,
    r: Result<TransactionResponse, AppError>,
) -> bool {
    match event {
        PaymentEvent::CreditRequested { .. } => if credit_fits(before, event.spec_request()) {
            credit_outcome(before, after, event.spec_request(), r)
        } else {
            (r matches Err(e) && e matches AppError::InternalError) && same_contents(before, after)
        },
        PaymentEvent::DebitRequested { .. } => if debit_fits(before, event.spec_request(), config.max_negative_balance) {
            debit_outcome(before, after, event.spec_request(), config.max_negative_balance, r)
        } else {
            (r matches Err(e) && e matches AppError::InternalError) && same_contents(before, after)
        },
    }
}

fn credit_overflows(store: &InMemoryStore, request: TransactionRequest) -> (b: bool)
    requires
        store.wf(),
        request.amount.wf(),
    ensures
        b == !credit_fits(store, request),
        store.has_client(request.client_id) && store.client(request.client_id).balance.mantissa == 0 ==> !b,
{
    if validate_amount(request.amount).is_err() {
        return false;
    }
    match store.clients.get(&request.client_id) {
        None => false,
        Some(client) => {
            proof { assert(store.has_client(request.client_id)); }
            client.balance.checked_add(&request.amount).is_none()
        },
    }
}

fn debit_overflows(store: &InMemoryStore, request: TransactionRequest, limit: Money) -> (b: bool)
    requires
        store.wf(),
        request.amount.wf(),
        limit.wf(),
    ensures
        b == !debit_fits(store, request, limit),
{
    if validate_amount(request.amount).is_err() {
        return false;
    }
    match store.clients.get(&request.client_id) {
        None => false,
        Some(client) => {
            proof { assert(store.has_client(request.client_id)); }
            if client.balance.le(&limit) {
                false
            } else {
                client.balance.checked_sub(&request.amount).is_none()
            }
        },
    }
}

/// Applies one payment event to the store and returns the answer for the
/// request that raised it.
pub fn handle_payment_event(store: &mut InMemoryStore, config: &AppConfig, event: PaymentEvent) -> (r: Result<TransactionResponse, AppError>)
    requires
        old(store).wf(),
        config.wf(),
        event.spec_request().amount.wf(),
    ensures
        final(store).wf(),
        event_outcome(old(store), final(store), config, event, r),
        event.spec_request().amount.mantissa > 0 && old(store).has_client(event.spec_client_id())
            && old(store).client(event.spec_client_id()).balance.mantissa == 0 ==> match event {
            PaymentEvent::CreditRequested { amount, .. } =>
                r == Ok::<TransactionResponse, AppError>(TransactionResponse { balance: amount }),
            PaymentEvent::DebitRequested { amount, .. } =>
                r is Ok ==> r == Ok::<TransactionResponse, AppError>(TransactionResponse { balance: amount.negated() }),
        },
{
    match event {
        PaymentEvent::CreditRequested { client_id, amount } => {
            let request = TransactionRequest { client_id, amount };
            if credit_overflows(store, request) {
                return Err(AppError::InternalError);
            }
            apply_credit(store, request)
        },
        PaymentEvent::DebitRequested { client_id, amount } => {
            let request = TransactionRequest { client_id, amount };
            if debit_overflows(store, request, config.max_negative_balance) {
                return Err(AppError::InternalError);
            }
            apply_debit(store, config, request)
        },
    }
}

} // verus!
