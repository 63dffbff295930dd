# prexcore_payment_processor

A payment processor with client accounts, credit and debit transactions
bounded by an overdraft limit, balance queries and periodic balance
snapshots written to `.DAT` files.

The library under `src/` holds every rule of the service and is verified
with Verus:

- `money` — decimal amounts (mantissa and scale of a `rust_decimal::Decimal`);
  comparison, checked addition and subtraction, parsing and printing are done
  by `rust_decimal` behind small trusted wrappers.
- `store` — the in-memory store (clients by id, document-number index,
  counters) and its invariant.
- `services` — registration, balance lookup, credits and debits.
- `processing` — routing of payment events to workers and their handling.
- `balances` — the snapshot: numbering the file, copying the clients out and
  resetting the balances.
- `storage` — the balance file: its name, the stable sort by id and its text.
- `config` — building the configuration from raw settings.
- `errors`, `models`, `text` — errors and their HTTP mapping, API records,
  number formatting and blank-field detection.
- `laws` — properties that span operations.

`app/` is the HTTP service (actix-web, tokio workers, environment, file
writing) around the library. `tests/` runs the library on concrete values.
