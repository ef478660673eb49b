# tools_box

The core of a desktop toolbox — a hosts file manager, an API tester with a
mock server, a JSON editor, a text diff viewer and a Markdown note taker —
written in Verus, with its behaviour stated in `requires` / `ensures`
contracts and proved.

## Layout

- `src/` — the verified library.
  - `text.rs`: character-level text operations and their specifications.
  - `hosts.rs`, `conflicts.rs`, `hosts_store.rs`, `hosts_ui.rs`,
    `hosts_flows.rs`: parsing and generating hosts files, the managed block
    and its markers, host name conflicts, validation of what is stored, and
    the decisions of the hosts manager screen.
  - `hosts_laws.rs`, `hosts_read.rs`: properties of the managed block
    (markers pair up, removing undoes appending, parsing reads back what was
    written).
  - `api.rs`, `api_tabs.rs`, `mock.rs`: requests, URLs and names of the API
    tester, its open tabs, and the routing and answers of the mock server.
  - `json.rs`, `json_fold.rs`: the JSON editor's operations, folding regions
    and visible lines.
  - `diff.rs`: line and character differences and the rows of both views.
  - `markdown.rs`, `markdown_parse.rs`, `markdown_uri.rs`: the Markdown
    document model, parsing with pulldown-cmark, and image addresses and
    size limits.
  - `notes.rs`, `shell.rs`: notes, tags and ordering; theme, plugin search,
    hotkeys.
- `tests/` — tests of the library.
- `app/` — a command-line front end: the SQLite stores of the hosts manager
  and of the notes, the hosts file on disk, the HTTP client and the mock
  server's listening thread. The API tester's saved requests, collections,
  history and environments have no store there.

Calls into outside crates (serde_json, similar, pulldown-cmark, urlencoding,
uuid) sit behind small trusted wrappers whose contracts name what they
return.
