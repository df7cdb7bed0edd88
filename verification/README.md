# Lodestar

An authoritative DNS server with a zone administration dashboard. The logic is a library verified
with Verus; the program around it does the input and output.

## Layout

- `src/text.rs`, `src/digits.rs`, `src/addr.rs`, `src/order.rs`: strings, numbers, IP addresses and
  sorting, each with a model on mathematical sequences.
- `src/config.rs`, `src/ids.rs`, `src/auth.rs`: configuration from environment variables, ids and
  the clock, the gateway identity and the CSRF token.
- `src/store.rs`, `src/seed.rs`: zones, records and history, the in-memory store, the first-run seed.
- `src/dns/`: record types, the wire format, the resolver, and the answer to one message.
- `src/zonefile/`: BIND zone files and the validation of records.
- `src/handlers/`: the edits of a zone, and the pages of the dashboard.
- `src/laws/`: properties that span several functions, as public proof functions. Among them: an
  exported zone reads back, stored records are served, edits keep a zone free of conflicts, a
  deletion undoes an addition, UDP answers fit, and a form without the right token changes nothing.
- `tests/`: tests of the library.
- `app/`: the server: sockets, HTTP, PostgreSQL and the environment.

## Contracts

Every public function states its result over spec functions on models (`Seq`, `int`, and a view of
each type). Where a function can fail, the contract says on which inputs, and with which message.

The library calls a few functions of the standard library and of other crates that Verus has no
specification for. Each of them stands behind one item that is marked as external and says in its
comment what is taken on trust.
