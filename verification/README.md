# Ji

Ji is a small graph database with its own query language. Scripts such as

```
ADD (paris:Gare {ville: "Paris"})
ADD (lyon:Gare)
ADD (paris)-[LGV]->(lyon)
GET (paris)-[LGV]->(lyon)
```

are lexed, parsed, planned, compiled to bytecode and run by a virtual machine against an
in-memory graph, which is saved to disk as a zstd-compressed snapshot behind a `JIDB`
signature, with a history of snapshots that can be rolled back and forward.

## Layout

- `src/` — the library, verified with Verus. Each stage is specified by a mathematical
  model (spec functions over `Seq`, `Map` and views of the data types) and proved against it:
  `lexer`, `parser`, `optimizer`, `codegen`, `vm`, the graph `store` (over `strmap`), the
  shortest-route search in `algos`, the database file format in `persist`, the snapshot
  stacks and snapshot names in `history`, what the graph viewer shows in `viewer`, and
  encryption and key derivation in `crypto`. Calls into `std`,
  `aes-gcm`, `argon2` and `zstd` go through small trusted wrappers whose contracts are
  stated in their doc comments.
- `app/` — the `ji` command: argument parsing, the interactive shell, file and network
  I/O, the HTTP graph viewer, the TCP daemon, and the GPU similarity computation.
- `tests/` — tests of the library.
