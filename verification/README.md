# aw_export

The export, enrichment and profile rules of an activity tracker, verified with
Verus.

- `src/` is the library. Its functions state in `ensures` what they return, and
  its public proof functions state what holds of several of them together.
  - `text`, `time`, `json`: characters and digits, instants and spans, JSON values.
  - `event`, `query`: events, stored rows, buckets, and what an export asks for.
  - `csv`, `csv_reader`: the CSV document, and how it reads back.
  - `export`, `json_reader`: the JSON document of buckets and their events, and how
    it reads back.
  - `merge`: enrichment of events with the fields of overlapping ones.
  - `http`, `stream`: responses, and the steps by which a download is staged.
  - `dirs`: profiles, and where each keeps its files.
- `app/` is ordinary Rust around it: the database, the server, the file system,
  and the models as they are serialized.
- `tests/` runs the library with the crates that it calls: `chrono`,
  `serde_json`, and a database of `rusqlite`.

Functions marked `#[verifier::external_body]`, and `String::push`, are believed
and not proved. Each says in its comment what it claims of the function that it
calls.
