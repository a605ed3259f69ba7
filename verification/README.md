# bookclub

The rules of a book club web application, verified with Verus.

- `src/book_search.rs` — search results: quality, merging, deduplication by
  case-insensitive title (each group based on its best result), reading Open
  Library documents.
- `src/dedup_laws.rs` — the laws of deduplication: distinct titles,
  first-seen order, the best result as base, no field lost or invented,
  limit, idempotence.
- `src/models.rs` — members, books and meetings: who may edit what, the
  placeholder book, planning the next meeting (host order rotation, date
  thirty days on), the next-meeting template, updates.
- `src/forms.rs` — reading the meeting form: a local date in a named time
  zone, and the host order as member ids.
- `src/settings.rs`, `src/middlewares.rs` — settings, reading the proxy
  header, and the authentication decision.
- `src/views.rs`, `src/controllers.rs`, `src/constants.rs`, `src/app.rs` —
  what pages show, handler decisions, the club title, the version text.
- `app/` — a command-line search against Open Library (HTTP, JSON, the
  environment), around the library.
