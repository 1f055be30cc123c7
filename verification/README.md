# AstraNova client core

The logic of the AstraNova API client, written in Verus and proved against
its contracts.

- `src/` — the verified library:
  - `text`, `strmap`: character-level text operations and an ordered string map;
  - `cookie`: the cookie jar (storage, `Set-Cookie` parsing, selection by URL);
  - `digest`: HTTP Digest challenges and answers;
  - `http`, `send`: request and response values, client settings, and the
    decisions taken while sending (redirects, digest retries, body encoding,
    retries);
  - `scripts`, `json`: pre-request and post-response scripts and JSON paths;
  - `har`: HAR 1.2 records;
  - `database`: the stored records and their names;
  - `collection_view`, `history_view`, `request_view`, `request_builder`,
    `request_editor`: the state of the collections tree, the history panel
    and the request editor, and how an edited request becomes one to send;
  - `search`: finding a query in a response body, ignoring case;
  - `request_flow`: what happens around sending from a tab (variables, URL
    checks, JSON detection, custom clients and their cache, finishing the
    response, saving it, and the notices shown);
  - `utils`, `clock`, `urls`, `error`: timestamps, variable merging, the
    clock, URL parsing and the error type.
- `tests/` — tests of the library.
- `app/` — a command-line front end: SQLite storage, networking with
  `reqwest`, and JSON/CSV/HAR output.
