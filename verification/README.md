# tucano_domain

The domain layer of a test-management service — projects, suites, test cases,
runs, milestones and configurations kept as JSON documents in a tree — written
in Verus, with every operation stated as a contract over a mathematical model
of the store and proved.

## Layout

- `src/` — the library, all of it verified:
  - `json`, `text`, `seqs`, `order` — JSON values and their models, strings,
    sequence search and lexicographic order.
  - `models` — the stored document types, how each writes itself and when a
    document reads as one (`fits`, `read_from`), with the read-back laws.
  - `store`, `storage` — the in-memory document tree and attachment files, with
    read-after-write and cascade laws.
  - `service` — CRUD, composition, run recording, imports, reports, history
    and attachments over the store.
  - `validation`, `resources`, `duplicate`, `composition`, `progress`,
    `reports`, `import`, `defect`, `listing`, `files`, `attachments`,
    `timestamps`, `cli`, `audit`, `error` — the rules those operations use.
- `tests/` — tests run against the compiled library.
- `app/` — the command-line entry point and the conversions between the
  library's values and `serde_json`.

`roxmltree` parses JUnit XML behind one trusted wrapper; the clock, the
lower-casing of Unicode text, `Debug` quoting and appending a character to a
`String` are the other trusted calls.

Sets and maps keyed by text (the identifiers an import has seen, the cases a
run holds, the versions a run pins) are kept as `Vec`s with their invariant
stated: each key once, first occurrence first. vstd gives `HashSet`,
`HashMap` and `BTreeMap` with `String` keys no usable specification, so the
library holds the order and uniqueness it needs itself.

An identifier is filed only if it is one non-empty path component other than
`.` and `..`, with no `/`, `\` or NUL (`storage::valid_document_id`): a
create, a copy or a rename to anything else, and a project read or removal by
such an identifier, answer `invalid_id` before the store is touched.
