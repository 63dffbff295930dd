use prexcore_payment_processor::balances::{begin_store_balances, finish_store_balances};
use prexcore_payment_processor::config::{parse_unsigned_at_most, AppConfig, Settings};
use prexcore_payment_processor::errors::AppError;
use prexcore_payment_processor::models::{Client, NewClientRequest, TransactionRequest};
use prexcore_payment_processor::money::{Money, MAX_MANTISSA};
use prexcore_payment_processor::processing::{handle_payment_event, select_worker, PaymentEvent};
use prexcore_payment_processor::services::{
    apply_credit, apply_debit, client_balance, create_client, validate_amount, validate_client_request,
};
use prexcore_payment_processor::storage::{render_balance_lines, sort_by_id, FileStorage};
use prexcore_payment_processor::store::InMemoryStore;
use prexcore_payment_processor::text::{trims_to_empty, u64_text, u64_text_zero_padded};

fn money(m: i128, s: u32) -> Money {
    Money { mantissa: m, scale: s }
}

fn config(limit: i128) -> AppConfig {
    AppConfig {
        host: "localhost".to_string(),
        port: 8080,
        data_file_path: "data".to_string(),
        max_negative_balance: money(limit, 0),
        worker_count: 2,
    }
}

fn request(name: &str, birth: &str, doc: &str, country: &str) -> NewClientRequest {
    NewClientRequest {
        client_name: name.to_string(),
        birth_date: birth.to_string(),
        document_number: doc.to_string(),
        country: country.to_string(),
    }
}

fn client(id: u64, doc: &str, balance: Money) -> Client {
    Client {
        id,
        client_name: format!("name-{}", id),
        birth_date: "2000-01-01".to_string(),
        document_number: doc.to_string(),
        country: "AR".to_string(),
        balance,
    }
}

fn store_with_client(balance: Money) -> InMemoryStore {
    let mut store = InMemoryStore::new();
    create_client(&mut store, request("Ada", "1815-12-10", "DOC-1", "UK")).unwrap();
    if balance.mantissa > 0 {
        apply_credit(&mut store, TransactionRequest { client_id: 1, amount: balance }).unwrap();
    }
    store
}

// ---- money ----

#[test]
fn money_compares_by_value_across_scales() {
    assert!(money(150, 2).le(&money(15, 1)));
    assert!(!money(150, 2).lt(&money(15, 1)));
    assert!(money(-1, 2).lt(&Money::zero()));
    assert!(money(2, 0).lt(&money(100, 1)));
    assert!(!money(100, 1).le(&money(2, 0)));
}

#[test]
fn money_checked_add_aligns_scales() {
    assert_eq!(money(150, 2).checked_add(&money(5, 1)), Some(money(200, 2)));
    assert_eq!(Money::zero().checked_add(&money(50, 0)), Some(money(50, 0)));
}

#[test]
fn money_checked_add_overflow_is_none() {
    assert_eq!(money(MAX_MANTISSA, 0).checked_add(&money(1, 0)), None);
}

#[test]
fn money_checked_sub_goes_negative() {
    assert_eq!(money(30, 0).checked_sub(&money(50, 0)), Some(money(-20, 0)));
    assert_eq!(money(-MAX_MANTISSA, 0).checked_sub(&money(1, 0)), None);
}

#[test]
fn money_prints_like_decimal() {
    assert_eq!(money(4200, 2).to_text(), "42.00");
    assert_eq!(money(-5, 1).to_text(), "-0.5");
    assert_eq!(money(7, 0).to_text(), "7");
    assert_eq!(Money::zero().to_text(), "0");
}

// ---- text ----

#[test]
fn u64_text_writes_decimal_digits() {
    assert_eq!(u64_text(0), "0");
    assert_eq!(u64_text(7), "7");
    assert_eq!(u64_text(1234), "1234");
    assert_eq!(u64_text(u64::MAX), "18446744073709551615");
}

#[test]
fn blank_text_is_only_white_space() {
    assert!(trims_to_empty(""));
    assert!(trims_to_empty("  \t\n"));
    assert!(trims_to_empty("\u{3000}"));
    assert!(!trims_to_empty(" a "));
    assert!(!trims_to_empty("x"));
}

// ---- errors ----

#[test]
fn error_codes_statuses_and_messages() {
    let cases = vec![
        (AppError::ClientNotFound, "CLIENT_NOT_FOUND", 404, "Client not found"),
        (AppError::DuplicateDocumentNumber, "DUPLICATE_DOCUMENT_NUMBER", 409, "Document number already exists"),
        (AppError::InvalidClientData("x".to_string()), "INVALID_CLIENT_DATA", 400, "Invalid client data: x"),
        (AppError::OverdraftLimitExceeded, "OVERDRAFT_LIMIT_EXCEEDED", 400, "Overdraft limit exceeded"),
        (AppError::InvalidAmount, "INVALID_AMOUNT", 400, "Invalid amount. Amount must be greater than zero"),
        (AppError::InvalidClientId, "INVALID_CLIENT_ID", 400, "Invalid client id"),
        (AppError::StorageError("disk".to_string()), "STORAGE_ERROR", 500, "Storage error: disk"),
        (AppError::InternalError, "INTERNAL_ERROR", 500, "Internal server error"),
    ];
    for (err, code, status, message) in cases {
        assert_eq!(err.code(), code);
        assert_eq!(err.status_code(), status);
        assert_eq!(err.message(), message);
        let body = err.error_body();
        assert_eq!(body.code, code);
        assert_eq!(body.message, message);
    }
}

// ---- client registration ----

#[test]
fn blank_fields_are_refused_in_order() {
    let cases = vec![
        (request(" ", " ", " ", " "), "client_name cannot be empty"),
        (request("Ada", "\t", "", ""), "birth_date cannot be empty"),
        (request("Ada", "1815", "  ", ""), "document_number cannot be empty"),
        (request("Ada", "1815", "D", "\n"), "country cannot be empty"),
    ];
    for (req, expected) in cases {
        match validate_client_request(&req) {
            Err(AppError::InvalidClientData(m)) => assert_eq!(m, expected),
            other => panic!("unexpected {:?}", other),
        }
    }
    assert!(validate_client_request(&request("Ada", "1815", "D", "UK")).is_ok());
}

#[test]
fn registration_ids_are_sequential() {
    let mut store = InMemoryStore::new();
    for (i, doc) in ["A", "B", "C"].iter().enumerate() {
        let resp = create_client(&mut store, request("n", "b", doc, "c")).unwrap();
        assert_eq!(resp.client_id, (i + 1) as u64);
    }
    assert_eq!(store.next_client_id, 3);
    assert_eq!(store.clients.len(), 3);
}

#[test]
fn registered_client_is_found_with_zero_balance() {
    let mut store = InMemoryStore::new();
    let resp = create_client(&mut store, request("Grace Hopper", "1906-12-09", "DOC-9", "US")).unwrap();
    let found = client_balance(&store, resp.client_id).unwrap();
    assert_eq!(found.client_name, "Grace Hopper");
    assert_eq!(found.birth_date, "1906-12-09");
    assert_eq!(found.document_number, "DOC-9");
    assert_eq!(found.country, "US");
    assert_eq!(found.balance, Money::zero());
}

#[test]
fn refused_registration_changes_nothing() {
    let mut store = InMemoryStore::new();
    create_client(&mut store, request("Ada", "b", "DOC", "c")).unwrap();
    let dup = create_client(&mut store, request("Other", "b", "DOC", "c"));
    assert!(matches!(dup, Err(AppError::DuplicateDocumentNumber)));
    let blank = create_client(&mut store, request("", "b", "NEW", "c"));
    assert!(matches!(blank, Err(AppError::InvalidClientData(_))));
    assert_eq!(store.next_client_id, 1);
    assert_eq!(store.clients.len(), 1);
    assert!(!store.document_index.contains_key("NEW"));
    assert_eq!(client_balance(&store, 1).unwrap().client_name, "Ada");
}

#[test]
fn document_numbers_stay_unique() {
    let mut store = InMemoryStore::new();
    create_client(&mut store, request("a", "b", "X", "c")).unwrap();
    create_client(&mut store, request("a", "b", "Y", "c")).unwrap();
    assert_ne!(client_balance(&store, 1).unwrap().document_number, client_balance(&store, 2).unwrap().document_number);
    assert_eq!(store.document_index.get("X"), Some(&1));
    assert_eq!(store.document_index.get("Y"), Some(&2));
}

#[test]
fn next_id_counts_up() {
    let mut store = InMemoryStore::default();
    assert_eq!(store.next_id(), 1);
    assert_eq!(store.next_id(), 2);
    assert_eq!(store.next_client_id, 2);
}

// ---- transactions ----

#[test]
fn amount_must_be_positive() {
    assert!(matches!(validate_amount(Money::zero()), Err(AppError::InvalidAmount)));
    assert!(matches!(validate_amount(money(0, 5)), Err(AppError::InvalidAmount)));
    assert!(matches!(validate_amount(money(-1, 0)), Err(AppError::InvalidAmount)));
    assert!(validate_amount(money(1, 28)).is_ok());
}

#[test]
fn invalid_amount_is_reported_before_unknown_client() {
    let mut store = InMemoryStore::new();
    let cfg = config(-100);
    let r = apply_credit(&mut store, TransactionRequest { client_id: 999, amount: Money::zero() });
    assert!(matches!(r, Err(AppError::InvalidAmount)));
    let r = apply_debit(&mut store, &cfg, TransactionRequest { client_id: 999, amount: money(-5, 0) });
    assert!(matches!(r, Err(AppError::InvalidAmount)));
    let r = apply_debit(&mut store, &cfg, TransactionRequest { client_id: 999, amount: money(5, 0) });
    assert!(matches!(r, Err(AppError::ClientNotFound)));
}

#[test]
fn credit_is_read_back_and_other_clients_unchanged() {
    let mut store = InMemoryStore::new();
    create_client(&mut store, request("a", "b", "X", "c")).unwrap();
    create_client(&mut store, request("a", "b", "Y", "c")).unwrap();
    let r = apply_credit(&mut store, TransactionRequest { client_id: 2, amount: money(1050, 2) }).unwrap();
    assert_eq!(r.balance, money(1050, 2));
    assert_eq!(client_balance(&store, 2).unwrap().balance, money(1050, 2));
    assert_eq!(client_balance(&store, 1).unwrap().balance, Money::zero());
}

#[test]
fn debit_down_to_the_limit_is_allowed() {
    let cfg = config(-100);
    let mut store = store_with_client(Money::zero());
    let r = apply_debit(&mut store, &cfg, TransactionRequest { client_id: 1, amount: money(100, 0) }).unwrap();
    assert_eq!(r.balance, money(-100, 0));
    assert_eq!(client_balance(&store, 1).unwrap().balance, money(-100, 0));
}

#[test]
fn debit_at_the_limit_is_refused() {
    let cfg = config(-100);
    let mut store = store_with_client(Money::zero());
    apply_debit(&mut store, &cfg, TransactionRequest { client_id: 1, amount: money(100, 0) }).unwrap();
    let r = apply_debit(&mut store, &cfg, TransactionRequest { client_id: 1, amount: money(1, 2) });
    assert!(matches!(r, Err(AppError::OverdraftLimitExceeded)));
    assert_eq!(client_balance(&store, 1).unwrap().balance, money(-100, 0));
}

#[test]
fn debit_below_the_limit_is_refused_and_changes_nothing() {
    let cfg = config(-100);
    let mut store = store_with_client(money(10, 0));
    let r = apply_debit(&mut store, &cfg, TransactionRequest { client_id: 1, amount: money(11001, 2) });
    assert!(matches!(r, Err(AppError::OverdraftLimitExceeded)));
    assert_eq!(client_balance(&store, 1).unwrap().balance, money(10, 0));
}

#[test]
fn credit_overflow_is_an_internal_error() {
    let cfg = config(-100);
    let mut store = store_with_client(money(MAX_MANTISSA, 0));
    let r = handle_payment_event(&mut store, &cfg, PaymentEvent::CreditRequested { client_id: 1, amount: money(1, 0) });
    assert!(matches!(r, Err(AppError::InternalError)));
    assert_eq!(client_balance(&store, 1).unwrap().balance, money(MAX_MANTISSA, 0));
}

#[test]
fn debit_overflow_is_an_internal_error() {
    let cfg = AppConfig { max_negative_balance: money(-MAX_MANTISSA, 0), ..config(0) };
    let mut store = store_with_client(Money::zero());
    let r = handle_payment_event(&mut store, &cfg, PaymentEvent::DebitRequested { client_id: 1, amount: money(MAX_MANTISSA - 1, 0) });
    assert_eq!(r.unwrap().balance, money(-(MAX_MANTISSA - 1), 0));
    let r = handle_payment_event(&mut store, &cfg, PaymentEvent::DebitRequested { client_id: 1, amount: money(MAX_MANTISSA, 0) });
    assert!(matches!(r, Err(AppError::InternalError)));
    assert_eq!(client_balance(&store, 1).unwrap().balance, money(-(MAX_MANTISSA - 1), 0));
}

#[test]
fn events_route_to_workers_by_client_id() {
    assert!(matches!(select_worker(7, 0), Err(AppError::InternalError)));
    assert_eq!(select_worker(10, 4).unwrap(), 2);
    assert_eq!(select_worker(10, 4).unwrap(), select_worker(10, 4).unwrap());
    assert_eq!(select_worker(3, 1).unwrap(), 0);
    let e = PaymentEvent::DebitRequested { client_id: 42, amount: money(1, 0) };
    assert_eq!(e.client_id(), 42);
}

// ---- balance snapshots ----

#[test]
fn snapshot_of_empty_store_is_refused() {
    let mut store = InMemoryStore::new();
    match begin_store_balances(&mut store) {
        Err(AppError::StorageError(m)) => assert_eq!(m, "Cannot store balances because there are no clients"),
        _ => panic!("expected a storage error"),
    }
    assert_eq!(store.file_counter, 0);
}

#[test]
fn snapshots_number_their_files_and_zero_balances() {
    let mut store = InMemoryStore::new();
    create_client(&mut store, request("a", "b", "X", "c")).unwrap();
    create_client(&mut store, request("a", "b", "Y", "c")).unwrap();
    apply_credit(&mut store, TransactionRequest { client_id: 1, amount: money(5, 0) }).unwrap();
    apply_credit(&mut store, TransactionRequest { client_id: 2, amount: money(75, 1) }).unwrap();

    let (snapshot, counter) = begin_store_balances(&mut store).unwrap();
    assert_eq!(counter, 1);
    assert_eq!(snapshot.len(), 2);
    assert_eq!(snapshot[0].id, 1);
    assert_eq!(snapshot[1].balance, money(75, 1));
    let content = FileStorage::balances_file_content(snapshot);
    assert_eq!(content, "1 5\n2 7.5\n");
    let name = FileStorage::balances_file_name("01022025", counter);
    assert_eq!(name, "01022025_1.DAT");
    let resp = finish_store_balances(&mut store, name);
    assert_eq!(resp.stored_clients, 2);
    assert_eq!(resp.file_name, "01022025_1.DAT");
    assert_eq!(client_balance(&store, 1).unwrap().balance, Money::zero());
    assert_eq!(client_balance(&store, 2).unwrap().balance, Money::zero());
    assert_eq!(client_balance(&store, 2).unwrap().document_number, "Y");

    let (_, second) = begin_store_balances(&mut store).unwrap();
    assert_eq!(second, 2);
    assert_ne!(FileStorage::balances_file_name("01022025", second), FileStorage::balances_file_name("01022025", counter));
}

#[test]
fn sort_by_id_is_stable() {
    let input = vec![
        client(3, "c", money(1, 0)),
        client(1, "a1", money(2, 0)),
        client(2, "b", money(3, 0)),
        client(1, "a2", money(4, 0)),
    ];
    let sorted = sort_by_id(input);
    let docs: Vec<&str> = sorted.iter().map(|c| c.document_number.as_str()).collect();
    assert_eq!(docs, vec!["a1", "a2", "b", "c"]);
}

#[test]
fn balance_file_content_is_sorted_lines() {
    let input = vec![client(2, "b", money(-3, 0)), client(1, "a", money(1050, 2))];
    assert_eq!(FileStorage::balances_file_content(input), "1 10.50\n2 -3\n");
    assert_eq!(FileStorage::balances_file_content(Vec::new()), "");
    let ordered = vec![client(9, "z", Money::zero())];
    assert_eq!(render_balance_lines(&ordered), "9 0\n");
}

#[test]
fn file_storage_keeps_its_directory() {
    let storage = FileStorage::new("/var/data".to_string());
    assert_eq!(storage.base_path(), "/var/data");
    assert_eq!(FileStorage::balances_file_name("31122024", 12), "31122024_12.DAT");
}

#[test]
fn client_duplicate_copies_every_field() {
    let c = client(5, "D5", money(123, 2));
    let d = c.duplicate();
    assert_eq!(d.id, 5);
    assert_eq!(d.document_number, "D5");
    assert_eq!(d.client_name, "name-5");
    assert_eq!(d.balance, money(123, 2));
}

// ---- configuration ----


fn settings(host: Option<&str>, port: Option<&str>, path: Option<&str>, limit: Option<&str>, workers: Option<&str>) -> Settings {
    Settings {
        app_host: host.map(|s| s.to_string()),
        app_port: port.map(|s| s.to_string()),
        data_file_path: path.map(|s| s.to_string()),
        max_negative_balance: limit.map(|s| s.to_string()),
        worker_count: workers.map(|s| s.to_string()),
    }
}

#[test]
fn unsigned_numbers_parse_like_str_parse() {
    assert_eq!(parse_unsigned_at_most("8080", 65535), Some(8080));
    assert_eq!(parse_unsigned_at_most("+42", 65535), Some(42));
    assert_eq!(parse_unsigned_at_most("0065535", 65535), Some(65535));
    assert_eq!(parse_unsigned_at_most("65536", 65535), None);
    assert_eq!(parse_unsigned_at_most("", 65535), None);
    assert_eq!(parse_unsigned_at_most("+", 65535), None);
    assert_eq!(parse_unsigned_at_most("-1", 65535), None);
    assert_eq!(parse_unsigned_at_most(" 1", 65535), None);
    assert_eq!(parse_unsigned_at_most("12a", 65535), None);
    assert_eq!(parse_unsigned_at_most("18446744073709551615", u64::MAX), Some(u64::MAX));
    assert_eq!(parse_unsigned_at_most("18446744073709551616", u64::MAX), None);
    for text in ["0", "7", "+9", "300", "99999", "x", "", "+"] {
        assert_eq!(parse_unsigned_at_most(text, 65535).map(|v| v as u16), text.parse::<u16>().ok());
    }
}

#[test]
fn decimal_text_parses() {
    assert_eq!(Money::parse("-100"), Some(money(-100, 0)));
    assert_eq!(Money::parse("12.50"), Some(money(1250, 2)));
    assert_eq!(Money::parse("abc"), None);
}

#[test]
fn settings_build_the_configuration() {
    let c = AppConfig::from_settings(settings(Some("0.0.0.0"), Some("8080"), Some("data"), Some("-100.5"), Some("4"))).unwrap();
    assert_eq!(c.host, "0.0.0.0");
    assert_eq!(c.port, 8080);
    assert_eq!(c.data_file_path, "data");
    assert_eq!(c.max_negative_balance, money(-1005, 1));
    assert_eq!(c.worker_count, 4);
}

#[test]
fn settings_problems_are_reported_in_order() {
    let cases = vec![
        (settings(None, None, None, None, None), "APP_HOST must be set"),
        (settings(Some("h"), None, None, None, None), "APP_PORT must be set"),
        (settings(Some("h"), Some("70000"), None, None, None), "APP_PORT must be a valid u16 number"),
        (settings(Some("h"), Some("80"), None, None, None), "DATA_FILE_PATH must be set"),
        (settings(Some("h"), Some("80"), Some("p"), None, None), "MAX_NEGATIVE_BALANCE must be set"),
        (settings(Some("h"), Some("80"), Some("p"), Some("x"), None), "MAX_NEGATIVE_BALANCE must be a valid Decimal"),
        (settings(Some("h"), Some("80"), Some("p"), Some("-1"), None), "WORKER_COUNT must be set"),
        (settings(Some("h"), Some("80"), Some("p"), Some("-1"), Some("-2")), "WORKER_COUNT must be a valid usize"),
    ];
    for (s, expected) in cases {
        assert_eq!(AppConfig::from_settings(s).unwrap_err(), expected);
    }
}

#[test]
fn file_dates_match_chrono_format() {
    assert_eq!(FileStorage::balances_file_date(5, 3, 2025), "05032025");
    assert_eq!(FileStorage::balances_file_date(31, 12, 12), "31120012");
    assert_eq!(FileStorage::balances_file_date(1, 1, -1), "0101-0001");
    assert_eq!(FileStorage::balances_file_date(1, 1, 12345), "0101+12345");
    for (y, m, d) in [(2025, 3, 5), (1999, 12, 31), (12, 1, 1), (0, 6, 15), (-44, 3, 15), (10000, 1, 1), (262142, 2, 2)] {
        let expected = chrono::NaiveDate::from_ymd_opt(y, m, d).unwrap().format("%d%m%Y").to_string();
        assert_eq!(FileStorage::balances_file_date(d, m, y), expected);
    }
}

#[test]
fn zero_padding_fills_to_width() {
    assert_eq!(u64_text_zero_padded(7, 2), "07");
    assert_eq!(u64_text_zero_padded(123, 2), "123");
    assert_eq!(u64_text_zero_padded(0, 4), "0000");
    assert_eq!(u64_text_zero_padded(42, 0), "42");
}

#[test]
fn white_space_is_the_unicode_set() {
    let spaces: Vec<u32> = vec![
        0x9, 0xA, 0xB, 0xC, 0xD, 0x20, 0x85, 0xA0, 0x1680, 0x2000, 0x2001, 0x2002, 0x2003, 0x2004,
        0x2005, 0x2006, 0x2007, 0x2008, 0x2009, 0x200A, 0x2028, 0x2029, 0x202F, 0x205F, 0x3000,
    ];
    assert_eq!(spaces.len(), 25);
    for n in 0u32..0x11000 {
        if let Some(c) = char::from_u32(n) {
            assert_eq!(trims_to_empty(&c.to_string()), spaces.contains(&n), "code point {:x}", n);
        }
    }
}

#[test]
fn money_prints_padded_fractions() {
    assert_eq!(money(5, 3).to_text(), "0.005");
    assert_eq!(money(-12345, 2).to_text(), "-123.45");
    assert_eq!(Money::zero().checked_add(&money(0, 2)).unwrap().to_text(), "0.00");
    assert_eq!(money(MAX_MANTISSA, 28).to_text(), "7.9228162514264337593543950335");
}

#[test]
fn same_scale_sums_are_exact() {
    assert_eq!(money(50, 0).checked_sub(&money(20, 0)), Some(money(30, 0)));
    assert_eq!(money(-5, 3).checked_add(&money(5, 3)).map(|m| m.mantissa), Some(0));
    assert_eq!(money(MAX_MANTISSA - 1, 4).checked_add(&money(1, 4)), Some(money(MAX_MANTISSA, 4)));
}

#[test]
fn debit_undoes_an_equal_credit() {
    let cfg = config(-100);
    let mut store = store_with_client(money(1234, 2));
    apply_credit(&mut store, TransactionRequest { client_id: 1, amount: money(766, 2) }).unwrap();
    let r = apply_debit(&mut store, &cfg, TransactionRequest { client_id: 1, amount: money(766, 2) }).unwrap();
    assert_eq!(r.balance, money(1234, 2));
}

#[test]
fn credits_compose_in_either_order() {
    let mut one = store_with_client(money(10, 1));
    let mut two = store_with_client(money(10, 1));
    apply_credit(&mut one, TransactionRequest { client_id: 1, amount: money(25, 1) }).unwrap();
    let a = apply_credit(&mut one, TransactionRequest { client_id: 1, amount: money(7, 1) }).unwrap();
    apply_credit(&mut two, TransactionRequest { client_id: 1, amount: money(7, 1) }).unwrap();
    let b = apply_credit(&mut two, TransactionRequest { client_id: 1, amount: money(25, 1) }).unwrap();
    assert_eq!(a.balance, money(42, 1));
    assert_eq!(b.balance, money(42, 1));
}

#[test]
fn balance_file_ignores_input_order() {
    let first = vec![client(3, "c", money(1, 0)), client(1, "a", money(-20, 1)), client(2, "b", money(3, 2))];
    let second = vec![client(2, "b", money(3, 2)), client(3, "c", money(1, 0)), client(1, "a", money(-20, 1))];
    let text = FileStorage::balances_file_content(first);
    assert_eq!(text, "1 -2.0\n2 0.03\n3 1\n");
    assert_eq!(FileStorage::balances_file_content(second), text);
}

#[test]
fn debits_keep_every_balance_at_or_above_the_limit() {
    let cfg = config(-100);
    let mut store = store_with_client(money(30, 0));
    for amount in [50, 50, 80, 30, 1] {
        let _ = apply_debit(&mut store, &cfg, TransactionRequest { client_id: 1, amount: money(amount, 0) });
        assert!(!client_balance(&store, 1).unwrap().balance.lt(&cfg.max_negative_balance));
    }
    assert_eq!(client_balance(&store, 1).unwrap().balance, money(-100, 0));
}

#[test]
fn mixed_scale_amounts_add_exactly() {
    assert_eq!(money(1, 0).checked_add(&money(5, 1)), Some(money(15, 1)));
    assert_eq!(money(5, 0).checked_sub(&money(5, 1)), Some(money(45, 1)));
    assert_eq!(money(15, 1).checked_sub(&money(5, 1)), Some(money(10, 1)));
    assert_eq!(money(0, 2).checked_add(&money(5, 0)), Some(money(5, 0)));
    assert_eq!(money(5, 0).checked_add(&money(0, 2)), Some(money(5, 0)));
}

#[test]
fn mixed_scale_credits_compose_and_undo() {
    let cfg = config(-100);
    let mut one = store_with_client(money(1, 0));
    apply_credit(&mut one, TransactionRequest { client_id: 1, amount: money(5, 1) }).unwrap();
    let a = apply_credit(&mut one, TransactionRequest { client_id: 1, amount: money(25, 2) }).unwrap();
    let mut two = store_with_client(money(1, 0));
    apply_credit(&mut two, TransactionRequest { client_id: 1, amount: money(25, 2) }).unwrap();
    let b = apply_credit(&mut two, TransactionRequest { client_id: 1, amount: money(5, 1) }).unwrap();
    assert_eq!(a.balance, money(175, 2));
    assert_eq!(b.balance, money(175, 2));

    let mut three = store_with_client(money(1, 0));
    apply_credit(&mut three, TransactionRequest { client_id: 1, amount: money(5, 1) }).unwrap();
    let r = apply_debit(&mut three, &cfg, TransactionRequest { client_id: 1, amount: money(5, 1) }).unwrap();
    assert_eq!(r.balance, money(10, 1));
    assert!(r.balance.le(&money(1, 0)) && money(1, 0).le(&r.balance));
}
