# ferrofin

The decision logic of a media server that adopts and serves Jellyfin databases,
written in Verus. The contracts of the functions under `src/` are proved, except
for the few that only call the standard library or another crate: their
contracts are relied on without proof, and the doc comment of each says what it
claims. They stand in `src/outside.rs`, with the mappings of characters and texts
in `src/casing.rs`, `String::push` in `src/text.rs`, and the text of a socket
error, of which nothing is claimed, in `src/server_discovery.rs`.

- `src/adoption_repairs/` — the one-shot repairs of a boot. Each hands out one
  request after the other and is told the reply; `request.rs` gives the
  statement that a request stands for, and `transaction.rs` says how requests
  lie within transactions.
- `src/normalized_usernames.rs` — normalized user names, in one transaction.
- `src/application_host.rs`, `src/base_url.rs`, `src/virtual_paths.rs` — the
  addresses a server gives of itself, the path it is mounted under, and the
  tokens in stored paths.
- `src/server_discovery.rs`, `src/api_client.rs` — answering discovery requests.
- `src/interfaces.rs`, `src/macos_interfaces.rs`, `src/net.rs` — which addresses
  of the operating system are usable.
- `src/casing.rs`, `src/sqlite_casing.rs` — invariant casing, and its functions
  in SQL.
- `src/outside.rs` — calls into the standard library and other crates, with the
  contracts relied on.
- `app/` — sockets, HTTP, the database and the operating system around it.
- `tests/` — the library at work, the repairs on a database in memory.
