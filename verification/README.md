# redis_starter_rust

A small Redis-compatible server. The library (`src/`) holds its logic with
Verus contracts and proofs; the program (`app/`) holds the sockets, threads
and clock around it.

- `decimal` — decimal text of integers, and parsing with the rules of
  `from_str_radix(_, 10)` for `usize` and `i32`.
- `text` — UTF-8 facts and the conversion from bytes to `String`.
- `encode` — RESP frames: simple strings, bulk strings, arrays, RDB transfer.
- `framing` — reading the bulk strings of a request buffer; proofs that an
  encoded array is read back as its parts.
- `store` — the key/value data, a map kept as a vector with distinct keys.
- `app_state` — roles, stored values and the server state.
- `connection` — the answer to each command and its effect on the data, with
  the laws of `SET`/`GET` and expiry.
- `args` — start-up options and the replica's side of the handshake.
