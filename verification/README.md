# provider_opencode

A verified library for the OpenCode Zen and Go products: it translates requests of the OpenAI
Responses protocol into the protocol of each model, turns the upstream's event streams back into
Responses events, chooses accounts, reads quotas and prepares credentials. The functions
of `src/` are verified with Verus against their contracts, except for the small wrappers around
functions of other crates and of std: their contracts are taken on trust, and their comments say
what is claimed.

- `src/request*` translates requests; `src/stream*` and `src/response*` translate answers.
- `src/selection.rs` and `src/attempt.rs` decide the course of a search for an account and of an
  attempt with it; `src/provider.rs` says what is sent and what a refusal means.
- `src/identity*` derives the names under which requests go upstream.
- `src/credential.rs`, `src/admin.rs`, `src/quota.rs`, `src/quota_query.rs` and `src/workers.rs`
  are the administration side.
- `src/catalog.rs` holds the models, `src/bundle.rs` ties both sides together.
- `src/json.rs`, `src/text.rs`, `src/time.rs`, `src/event.rs`, `src/operation.rs` and
  `src/error.rs` are the plain values that the rest works on.

What outside crates compute is named or described in the contracts of small wrappers: reading,
comparing and printing JSON, SHA-256, base64, UTF-8, RFC 3339 and HTTP dates, and random identifiers.

`app/` runs the library in a host: it performs the network and store operations that the state
machines ask for and hands the results back.
