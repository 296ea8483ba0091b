# cdn_backend

The management backend of a CDN: resources (files) and their versions, the
nodes that serve them, publications of resources on nodes, preheat and purge
tasks, hit statistics and reports, and an audit trail.

- `src/` is the library, verified with Verus. Every operation is a method of
  `store::AppState` whose contract states, over the views of the records, the
  answer it gives and the state it leaves; the `_at` variants take the fresh
  identifiers and the current instant as arguments, the plain ones obtain them.
  Public proof functions state the laws that relate several operations
  (what a read gives back after a write, what a delete leaves, what an
  unpublish undoes, how a preheat run accounts for its steps, ...).
- `app/` is the HTTP server (actix-web): JSON forms of the records, the
  endpoints, the background loops, and the floating-point figures (hit rates,
  gigabytes) computed from the library's integer counts.
- `tests/` exercise the library on concrete values.

Outside crates used by the library sit behind small trusted wrappers:
`uuid` (identifiers), `chrono` (clock and dates), `priority_queue` (task and
removal queues), `regex` (identifier shape), `mime_guess` and `sha2`
(uploads), and `csv` (the statistics report).
