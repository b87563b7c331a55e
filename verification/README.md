# tsugi

Keeps a local list of GitHub pull requests that wait on you (review requests and
your own open pull requests) and notifies you of new ones.

- `src/` is the verified library: the task types, the reading of GitHub search
  responses (through `serde_json`), the planning of the writes that bring the task
  table in line with what a plugin reports, the statements and parameters of those
  writes, and the notifications about new tasks. `src/storage.rs` also states and
  proves the laws of an update.
- `app/` is the program around it: HTTP requests to GitHub, the SQLite database,
  the polling threads and the printing of notifications.
- `tests/` runs the library, including the update statements against an in-memory
  SQLite database.

The program is a command-line one: it takes the data directory as its argument,
polls every minute and prints notifications; `<data-dir> list` prints the stored
tasks as JSON. It runs its asynchronous HTTP calls on a `tokio` runtime.
