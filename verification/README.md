# gemma4_serving

Serving-side logic for Gemma 4 chat models, verified with Verus.

- `src/gemma4/` separates reasoning from visible content, at once and from a
  stream, and keeps control tokens away from clients. `laws.rs` states what holds
  of whole streams, however they are cut into chunks.
- `src/chat_completions.rs` reads chat completion requests and decides which
  constraint they put on decoding.
- `src/flexprice/` holds the wallet gate, usage events and their delivery, and the
  admission of authenticated requests.
- `src/relay_metrics.rs` decides which metrics go to the relay and how posting is
  retried.
- `src/text.rs`, `src/json.rs` and `src/http_status.rs` are shared by these.
- `app/` holds the HTTP clients, the middleware, the wire formats and what is
  computed with floating-point numbers.
- `tests/` runs the library.
