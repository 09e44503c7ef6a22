# client_service

A small client-and-balance service, verified with Verus.

- `src/` is the verified library:
  - `money.rs`: decimal amounts held as plain parts (sign, scale, 96-bit
    magnitude) and the `rust_decimal` addition and subtraction behind
    trusted wrappers.
  - `transaction.rs`: the body of a credit or debit request and what a
    request does to the balances (`transaction_outcome`).
  - `client_model.rs`: clients, unique identifiers taken from a wrapping
    counter, searches among clients, credit and debit transactions, and the
    largest counter among stored-balance file names.
  - `client_handler.rs`: the service state and its invariant, and the answer
    to each request.
  - `balance_files.rs`: stored-balance file names (`DDMMYYYY_N.DAT`), the
    parsing of their counters and the naming of the next file.
- `app/` is the HTTP server (actix-web): JSON bodies, the clock, the `data`
  directory, and the rendering of answers.
- `tests/` runs the library on concrete values.
