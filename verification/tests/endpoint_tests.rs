use prexcore_payment_processor::balances::{begin_store_balances, finish_store_balances};
use prexcore_payment_processor::config::AppConfig;
use prexcore_payment_processor::errors::AppError;
use prexcore_payment_processor::models::{NewClientRequest, TransactionRequest};
use prexcore_payment_processor::money::Money;
use prexcore_payment_processor::processing::{handle_payment_event, select_worker, PaymentEvent};
use prexcore_payment_processor::services::{client_balance, create_client};
use prexcore_payment_processor::storage::FileStorage;
use prexcore_payment_processor::store::InMemoryStore;

fn test_config() -> AppConfig {
    AppConfig {
        host: "127.0.0.1".to_string(),
        port: 0,
        data_file_path: "/tmp/balances".to_string(),
        max_negative_balance: Money { mantissa: -100, scale: 0 },
        worker_count: 4,
    }
}

fn money(n: i128) -> Money {
    Money { mantissa: n, scale: 0 }
}

fn request(name: &str, birth: &str, doc: &str, country: &str) -> NewClientRequest {
    NewClientRequest {
        client_name: name.to_string(),
        birth_date: birth.to_string(),
        document_number: doc.to_string(),
        country: country.to_string(),
    }
}

fn credit(store: &mut InMemoryStore, config: &AppConfig, client_id: u64, amount: Money) -> Result<Money, AppError> {
    let worker = select_worker(client_id, config.worker_count).expect("a worker");
    assert!(worker < config.worker_count);
    handle_payment_event(store, config, PaymentEvent::CreditRequested { client_id, amount })
        .map(|r| r.balance)
}

fn debit(store: &mut InMemoryStore, config: &AppConfig, client_id: u64, amount: Money) -> Result<Money, AppError> {
    let worker = select_worker(client_id, config.worker_count).expect("a worker");
    assert!(worker < config.worker_count);
    handle_payment_event(store, config, PaymentEvent::DebitRequested { client_id, amount })
        .map(|r| r.balance)
}

#[test]
fn new_client_success_and_duplicate_failure() {
    let mut store = InMemoryStore::new();

    let payload = request("Ada Lovelace", "1815-12-10", "DOC-123", "UK");
    let created = create_client(&mut store, payload).expect("created");
    assert_eq!(created.client_id, 1);

    let duplicate_payload = request("Grace Hopper", "1906-12-09", "DOC-123", "US");
    let duplicate_error = create_client(&mut store, duplicate_payload).unwrap_err();
    assert_eq!(duplicate_error.status_code(), 409);
    assert_eq!(duplicate_error.error_body().code, "DUPLICATE_DOCUMENT_NUMBER");
}

#[test]
fn credit_and_debit_transactions_success() {
    let config = test_config();
    let mut store = InMemoryStore::new();
    let created = create_client(&mut store, request("Ada Lovelace", "1815-12-10", "DOC-123", "UK")).unwrap();

    let credit_resp = credit(&mut store, &config, created.client_id, money(50)).unwrap();
    assert_eq!(credit_resp, money(50));

    let debit_resp = debit(&mut store, &config, created.client_id, money(20)).unwrap();
    assert_eq!(debit_resp, money(30));
}

#[test]
fn transaction_failures_for_not_found_and_overdraft() {
    let config = test_config();
    let mut store = InMemoryStore::new();

    let missing_client_error = credit(&mut store, &config, 999, money(10)).unwrap_err();
    assert_eq!(missing_client_error.status_code(), 404);
    assert_eq!(missing_client_error.error_body().code, "CLIENT_NOT_FOUND");

    let created = create_client(&mut store, request("Ada Lovelace", "1815-12-10", "DOC-OVERDRAFT", "UK")).unwrap();
    let overdraft_error = debit(&mut store, &config, created.client_id, money(200)).unwrap_err();
    assert_eq!(overdraft_error.status_code(), 400);
    assert_eq!(overdraft_error.error_body().code, "OVERDRAFT_LIMIT_EXCEEDED");
}

#[test]
fn client_balance_success_and_not_found_failure() {
    let config = test_config();
    let mut store = InMemoryStore::new();
    let created = create_client(&mut store, request("Ada Lovelace", "1815-12-10", "DOC-BALANCE", "UK")).unwrap();
    credit(&mut store, &config, created.client_id, money(75)).unwrap();

    let balance_resp = client_balance(&store, created.client_id).unwrap();
    assert_eq!(balance_resp.client_name, "Ada Lovelace");
    assert_eq!(balance_resp.balance, money(75));

    let missing_balance_error = client_balance(&store, 999).unwrap_err();
    assert_eq!(missing_balance_error.status_code(), 404);
    assert_eq!(missing_balance_error.error_body().code, "CLIENT_NOT_FOUND");
}

#[test]
fn store_balances_writes_file_and_resets_balance() {
    let config = test_config();
    let mut store = InMemoryStore::new();
    let created = create_client(&mut store, request("Ada Lovelace", "1815-12-10", "DOC-STORE", "UK")).unwrap();
    credit(&mut store, &config, created.client_id, money(42)).unwrap();

    let (snapshot, counter) = begin_store_balances(&mut store).unwrap();
    let file_name = FileStorage::balances_file_name("19112025", counter);
    let content = FileStorage::balances_file_content(snapshot);
    assert_eq!(content, "1 42\n");
    let store_resp = finish_store_balances(&mut store, file_name);

    assert_eq!(store_resp.stored_clients, 1);
    assert!(store_resp.file_name.ends_with(".DAT"));

    let balance_resp = client_balance(&store, created.client_id).unwrap();
    assert_eq!(balance_resp.balance, Money::zero());
}
