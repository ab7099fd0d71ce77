# growth_companion

The logic of a desktop companion that chats with its user, keeps a small core
memory about them, and writes diaries, weekly growth summaries and life
chapters from what was said and noted.

- `src/` is the library, verified with Verus: prompt building, core-memory
  patches and the chat-history window, date validation and calendar
  arithmetic, the streaming (SSE) decoder of model replies, the selection,
  ordering and metadata of diary, weekly-summary and life-chapter notes, the
  extraction filters, and the heartbeat's decisions. Calls into `chrono`,
  `serde_json` and std that the logic makes stand behind a few trusted
  wrappers in `dates.rs`, `llm.rs` and `extractor.rs`, each with its contract.
- `tests/` runs the library on concrete values.
- `app/` is the unverified shell: files, the note store, SQLite, HTTP calls to
  the model service, clocks and time zones, and the floating-point scores of
  memories (strength, importance, relevance).
