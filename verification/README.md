# lazydb (verified core)

The editing, review and export logic of the lazydb database client, with
its behaviour stated as contracts and proved by Verus.

- `src/` — the verified library:
  - `text`, `value`, `dialect` — text helpers, cell values and their canonical text, identifier quoting;
  - `text_input`, `json_buffer`, `temporal`, `cell_editor` — the cell editors (plain text, JSON with
    selection and formatting, segment-wise date/time drafts) with undo/redo and NULL/unprovided presence;
  - `relation_edit`, `relation_review` — the grid's edit session (updates, inserts, deletes, yank/paste,
    history) and the SQL that reviews it;
  - `relation_filter` — cell filters and header sorting over the preview's WHERE / ORDER BY fragments;
  - `clipboard` — cell and row copies (TSV, JSON, INSERT) and the OSC 52 sequence;
  - `mysql_version`, `sql_activity`, `logger`, `agent_service`, `display` — server version checks, the
    SQL activity view, SQL log entries, agent log records, and terminal display helpers.
- `tests/` — behaviour tests of the library.
- `app/` — the parts that touch the outside world: the SQL log writer on a tokio task, environment
  lookups, and conversions from chrono values.

Calls into `chrono`, `sqlparser`, `serde`, `serde_json`, `base64` and `unicode-width` stand behind small
trusted wrappers whose contracts say what those crates document or their source shows. A few
short, fixed renderings are written out in verified code instead: the `%Y-%m-%d %H:%M:%S`-style
date and time texts and the log timestamp, and an ORDER BY item put back together from the parts
sqlparser rendered.
