# probe

An API client: it sends HTTP requests with any method, keeps collections of
requests per user, evaluates declarative validations against responses,
exports collections to Markdown and runs sequential load tests with CSV data.

## Layout

- `src/` — the verified library (Verus).
  - `model.rs` — requests, collections, JSON values, validations, load tests.
  - `text.rs` — character-level text operations and their specifications.
  - `interpolation.rs` — `{{name}}` and `:name` placeholders.
  - `validation.rs` — JSON paths and the evaluation of validations.
  - `markdown.rs` — the Markdown export of a collection.
  - `engine.rs` — what is sent for a request, and the response it gives.
  - `runner.rs` — load test runs: flow selection, progress, reports.
  - `csv_data.rs` — CSV rows as test variables.
  - `storage.rs`, `repository.rs` — where collections are stored; an in-memory store.
  - `cli.rs`, `output.rs` — command line options and printed lines.
  - `server.rs` — state of the runs started by the HTTP server.
- `app/` — the program around it: argument parsing, files, HTTP, the server.
- `tests/` — tests of the library.
