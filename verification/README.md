# fortytwo

The verified core of 42, a local-network, search-augmented answer engine:
ask a question, get a streamed answer with inline citations from live web
search, backed by an OpenAI-compatible LLM endpoint.

Layout:

- `src/` — the library, verified with Verus:
  - `engine/citations.rs` — repair of `[n]` citation markers against the
    source list;
  - `engine/prompt.rs` — system prompt and sliding-window, token-bounded
    chat message list;
  - `engine/llm.rs` — endpoint URL, SSE line splitting and token/reasoning
    extraction;
  - `engine/search.rs` — search results to numbered sources;
  - `server/ask.rs` — the `/v1/ask` flow as a state machine;
  - `server/auth.rs`, `server/static_ui.rs`, `server/settings.rs`,
    `server/conversations.rs`, `server/mod.rs` — session cookies, UI routing,
    admin checks, defaults;
  - `config.rs` — configuration types and the runtime engine settings
    (stored key/value pairs over the configured values);
  - `store/`, `auth/` — entity types;
  - `text.rs` — character helpers (trim, split, decimal rendering and
    reading).
- `app/` — the `42` binary: CLI, configuration loading, axum server, HTTP
  clients for the LLM and SearXNG, in-process storage.
- `tests/` — tests of the library.
