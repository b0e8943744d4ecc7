# buzz

Nostr relay protocol frames, forum message shaping, and the durable retention of
events, as a library verified with Verus.

- `src/protocol.rs`: NIP-01 client messages, parsed from raw frames, and relay
  messages, written as JSON.
- `src/forum.rs`: forum messages and thread replies made from events, link-preview
  suppression, and the lookup of agent owners.
- `src/scope.rs`: which database belongs to which relay and owner.
- `src/retained_event.rs`, `src/retention.rs`, `src/tombstone.rs`: the rows of a
  retention store, the table of them, and the keys of tombstones.
- `src/sqlite.rs`: how long a busy database is waited for.
- `src/event.rs`, `src/json.rs`, `src/text.rs`: events, JSON values and texts as plain
  data.

Calls into `nostr`, `serde_json`, `sha2`, `hex` and `rusqlite` stand behind small
functions marked `external_body`; the comment above each says what is trusted of it. A
function whose name begins with `law_` proves a property that spans several functions.

`app/` keeps the table in an SQLite file and talks to the relay; what becomes of a row is
the library's decision.
