# ms_websocket

The core of a WebSocket signalling node for video meetings, verified with Verus.

- `src/` — the library, every function proved against its contract except
  the trusted wrappers of outside calls (`DashMap` and `fbc_starter`'s key
  builder), whose contracts are stated from those crates' source:
  message-type codes (`ws_msg_type`), decimal text (`text`), Redis cache keys
  (`cache_keys`), configuration from the environment (`config`), sessions and
  the user → device → session index (`session`, `session_tables`,
  `session_manager`), push routing across nodes (`push_routing`), room
  timeouts and room closing (`room_timeout`), the node's local copy of the
  routing table with its 30-second entries (`local_router_cache`), request classification
  (`processors`) and connection admission (`connection`).
- `tests/` — tests of the library on concrete values.
- `app/` — the server around it: the axum WebSocket endpoint, Redis and the
  service registry, timers, JSON forms of the messages.
