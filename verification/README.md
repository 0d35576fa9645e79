# bloomrepo

BloomRepo watches GitHub for newly created repositories. Each cycle it walks
the public repository listing from a cursor, polls the public events feed
and runs a creation-date search, merges what the three streams found,
filters spam, marks priority matches, stores the results in SQLite with a
full-text index, writes log and JSON Lines files, and notifies Discord,
Telegram, a webhook or a Windows toast. It runs in a console loop or behind
a desktop window.

## Layout

- `src/` is the library, verified with Verus: configuration defaults,
  environment overrides and validation; the crawler's URLs, `Link` parsing,
  response handling and event conversion; the token pool and its rate-limit
  bookkeeping; the spam and priority filter; the work of a cycle (cursor
  anchoring, the sequential walk, stream outcomes, merging, triage, new
  items); full-text query sanitising and the topics column; notification
  texts, Base64 and the toast script; the command line; and the window's
  state. Calls into `regex` and `chrono` go through small trusted wrappers
  whose contracts are stated in `pattern.rs`, `clock.rs` and `text.rs`.
- `app/` is the program around it: configuration and state files, HTTP
  requests, SQLite, console output, the egui window and the async loops.
- `tests/` runs the library on concrete values.
