# wunderdrive

A document mirror over any S3-compatible bucket: a local folder is kept in
sync with a bucket prefix by three-way reconcile against a journal of the
last-synced state, content is identified by its blake3 hash, and the text of
documents (plain text, PDF, DOCX, PPTX, spreadsheets) is extracted for a
full-text index.

## Layout

- `src/` — the library, verified with Verus. Each public function states
  its behaviour in `requires`/`ensures` over mathematical models (`Seq`,
  `Map`, spec functions), and the library's laws stand as public proof
  functions (`law_*`):
  - `reconcile`, `keyed`, `journal`, `mirror` — the reconcile decision per
    key, the plan over all keys, and what the mirror records after each
    action;
  - `keypath` — relative keys, local paths and conflict-copy names;
  - `hash` — blake3 digests (whole and incremental) and their hex form;
  - `extract`, `pdf`, `ooxml`, `archive` — text extraction from document
    bytes;
  - `engine`, `protocol`, `creds`, `config`, `cli` — the daemon's state
    machine, its wire routing and framing, credential resolution and
    configuration;
  - `browser`, `listing`, `display`, `shortcut`, `tui` — the state and text
    of the desktop and terminal clients.
- `tests/` — tests of the library on concrete values.
- `app/` — the daemon: sockets, files, the object store, the journal
  database, the search index, the file watcher and the keychain, driving
  the library.

Calls into outside crates that the library makes (blake3, chrono, dirs,
quick-xml, zip, lopdf) stand behind small trusted functions whose contracts
say what those crates document. So do the few standard-library functions
that Verus's own library gives no contract: `String::push` and `push_str`,
`String::from_utf8_lossy`, `char::from_u32`, `SystemTime::now`,
`SystemTime::duration_since` and `SystemTime::checked_add`. Everything else
in `src/` is proved.
