# kvstore

A persistent, networked key-value store with a command-line client, whose
core is verified with Verus.

Layout:

- `src/` — the verified library.
  - `store.rs`: the table, an ordered map from string keys to string values
    kept as a vector sorted by key, with the count of connected clients.
  - `text.rs`: Unicode whitespace, trimming, searching, lexicographic order
    of strings and decimal numerals.
  - `protocol.rs`: requests and replies, and the line framing of messages.
  - `client.rs`: parsing typed commands and rendering replies.
  - `server.rs`: what each request does to the server state and what is
    replied; the snapshot to save.
  - `persistence.rs`: encoding and decoding of the JSON snapshot file.
  - `laws.rs`: properties of the library as a whole.
- `app/` — the programs (`kvstore server`, `kvstore client`): sockets,
  threads, files, terminal input and output, the JSON form of messages.
- `tests/` — tests of the library.
