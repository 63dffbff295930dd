//! Domain records and the request / response shapes of the API.

use crate::money::Money;
use vstd::prelude::*;

verus! {

pub type ClientId = u64;

/// A registered client and its current balance.
#[derive(Debug)]
pub struct Client {
    pub id: ClientId,
    pub client_name: String,
    pub birth_date: String,
    pub document_number: String,
    pub country: String,
    pub balance: Money,
}

impl Client {
    /// A field-by-field copy of the client.
    pub fn duplicate(&self) -> (c: Client)
        ensures
            c == *self,
    {
        Client {
            id: self.id,
            client_name: self.client_name.clone(),
            birth_date: self.birth_date.clone(),
            document_number: self.document_number.clone(),
            country: self.country.clone(),
            balance: self.balance,
        }
    }
}

#[derive(Debug)]
pub struct NewClientRequest {
    pub client_name: String,
    pub birth_date: String,
    pub document_number: String,
    pub country: String,
}

#[derive(Debug, Clone, Copy)]
pub struct NewClientResponse {
    pub client_id: ClientId,
}

#[derive(Debug, Clone, Copy)]
pub struct TransactionRequest {
    pub client_id: ClientId,
    pub amount: Money,
}

#[derive(Debug, Clone, Copy)]
pub struct TransactionResponse {
    pub balance: Money,
}

#[derive(Debug, Clone, Copy)]
pub struct ClientBalanceQuery {
    pub user_id: ClientId,
}

#[derive(Debug)]
pub struct ClientBalanceResponse {
    pub client_name: String,
    pub birth_date: String,
    pub document_number: String,
    pub country: String,
    pub balance: Money,
}

#[derive(Debug)]
pub struct StoreBalancesResponse {
    pub file_name: String,
    pub stored_clients: u64,
}

} // verus!
