# cryptomeria-historic (verified core)

An NNG PUB/SUB subscriber that forwards normalised LOB and trade market data
to QuestDB, with embedded schema-versioned migrations. The decisions of the
forwarder are written in Verus and proved against their contracts; the
sockets, threads, database connection and JSON handling are ordinary Rust.

## Layout

- `src/` — the verified library
  - `forward.rs` — wire frames `{topic}\0{payload}`: framing, splitting, and
    the proof that splitting inverts framing.
  - `topics.rs` — `lob__{instrument}` / `trade__{instrument}` classification
    and `{kind}__{instrument}` segment extraction.
  - `subscriber.rs` — per-broker connectivity: the down/up transition with
    its debounce, the live-pipe count, one receive-loop step, and the proofs
    that events alternate, that `Down` is debounced and that a healthy broker
    never flaps.
  - `items.rs` — market-data items (prices and sizes held as `f64` bits).
  - `price.rs` — `f64::total_cmp` order and IEEE `>` on bit patterns.
  - `lob.rs` — stable best-first sorting of book sides, with its uniqueness.
  - `persist.rs` — the rows of a LOB event (crossed books rejected, whatever
    their timestamp) and of a trade, and the latency column.
  - `db.rs` — configuration resolution and TTL statements.
  - `migrate.rs` — the migration catalogue, SQL hashing and statements, the
    decoding of the recorded rows, the migration plan with the statement and
    failure message of each step, and the proofs that a re-run changes
    nothing (for migrations of distinct versions) and that a drop-first run
    rebuilds `schema_version`.
  - `forwarder.rs` — broker address lists (trimmed of Unicode white space),
    message routing, silence warnings.
  - `text.rs` — character and number formatting helpers.
- `tests/` — tests of the library.
- `app/` — the executable: CLI, logging, NNG sockets, QuestDB I/O, serde.
