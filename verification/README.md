# rscholar

The verified core of ScholarLens, a literature-search service. The library in
`src/` is written in Verus: its functions state what they compute in
`requires`/`ensures` contracts over mathematical models (`Seq`, `Map`, spec
functions) and are proved against them, and public lemmas state the laws that
span several calls (a whole paged search, a relaxed search, trying network
routes, merging results, reading a feed or a search page). A few internal
helpers state nothing beyond their types.

## Layout

- `src/text.rs`, `src/digits.rs`, `src/markup.rs`: character sequences,
  decimal numerals and UTF-8 lengths, XML/HTML entities and tags.
- `src/arxiv/`: arXiv query building (`query`), regular-expression matching of
  Atom feeds and search pages (`scan`, `atom`, `html`), de-duplication of
  results (`dedup`), and the decisions of a search (`search`): network routes,
  API paging, endpoint fallback, relaxed queries, the HTML fallback.
- `src/api_keys.rs`: API keys hashed with HMAC-SHA256 under a server pepper,
  constant-time checks, accepted custom keys.
- `src/admin_key.rs`: the administrator password a deployment starts with.
- `src/providers.rs`, `src/llm.rs`: LLM provider settings, endpoint
  normalization, request payloads and reading answers.
- `src/relevance.rs`: requested sort order, term-overlap signals, and a stable
  sort on several keys.
- `src/retry.rs`: waiting out rate limits.
- `src/temp_auth.rs`: the temporary login requirement: password, session
  cookie, sessions with sliding twelve-hour expiry.

Calls into outside crates (hmac, sha2, hex, subtle, uuid, rand, regex,
regex-syntax, serde_json) and into std functions that vstd does not specify go through
small trusted wrappers whose contracts are stated in their doc comments.

`app/` is the ordinary Rust around the library: the command line, SQLite
storage, HTTP handlers and the HTTP client, serde forms of the library's types,
and the floating-point relevance score.

`tests/` exercises the library on concrete inputs.
