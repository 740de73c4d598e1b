# void_kit

The decision-making core of the Void connectors (Gmail, iMessage, Reddit,
LinkedIn through Unipile, Google News, Hacker News) and of its local
knowledge base, written in Verus and proved against its contracts.

## Layout

- `src/` — the verified library. Every public function states what it
  returns in `ensures`, over spec functions on `Seq`, `Map` and plain values.
  - `text`, `json`, `time`, `paths`: string, JSON-tree, clock and path
    helpers shared by the rest.
  - `chunking`, `chunk_bounds`: splitting documents into overlapping chunks,
    with the proofs that chunks are numbered in order and stay inside the text.
  - `normalize`, `kb`, `search`: search normalization, FTS5 queries, document
    rows, folder-sync planning and the fusion of semantic and keyword hits.
  - `gmail_*`: message composition (headers, RFC 2047, multipart, drafts,
    forwards, signatures), reading message parts, API error classification,
    retry delays, token handling and the channel's records.
  - `imessage`: the `typedstream` decoder, Apple timestamps, AppleScript
    escaping and send confirmation.
  - `reddit`, `linkedin`, `googlenews`, `hackernews`: identifiers, filters,
    request bodies, payload models and profile resolution.
  - `records`: the conversation and message records each connector stores.
- `tests/` — tests of the library on concrete values.
- `app/` — ordinary Rust around the library: HTTP clients, the SQLite stores,
  sync loops, process launching, serde forms of the payloads, and the
  floating-point ranking of search results.

Calls into outside crates (base64, sha2, urlencoding,
unicode-normalization, html-to-markdown-rs, chrono) stand behind small
trusted wrappers whose doc comments say what is assumed of them.
