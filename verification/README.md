# komga_core

The verified core of a Komga server: the logic that the HTTP handlers, the task
runtime and the web UI updater rely on, with its behaviour stated in `requires` /
`ensures` contracts and proved by Verus.

`src/` (the library, verified):

- `task_queue` — the task queue: enqueueing, claiming, taking the next available task
  by priority, order and group locks, batches, processing with an executor, the census
  of task types, and the plan that finishes an execution.
- `runtime_events` — the bounded log of server-sent events and who may see which.
- `transient_books` — the in-memory store of transient books with its one-hour expiry,
  TSID ids, scanning, analysis and page serving through a port.
- `media_analysis` — what a book analysis reads, the rows that persisting it writes, and
  the steps of an analysis, from the database's answer to the change it announces.
- `thumbnails` — mosaic layout and sources, the in-flight registry, thumbnail upload
  parsing, media-type resolution, and JPEG re-encoding and mosaic composition through
  the `image` crate.
- `webui` — the web UI updater's decisions and the sha256 check of a bundle.
- `devices`, `settings`, `routing` — device-sync records, settings data and router path
  rules.

`app/` holds what Verus does not take: locks, async ports, HTTP, SQL, archives, blocking
threads and the serde forms of the data. `tests/` exercises the library.
