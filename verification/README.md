# vapor-forge-hooks

The decisions of the client-side hooks, as a verified library: each public function says in
its contract what it returns or changes, and Verus proves it. Nothing here patches a process
or talks to one. What has to be read or called is an argument, and what has to be done is a
value that is handed back.

- `src/` is the library.
  - Callbacks: `callback_dispatch`, `callback_notify`, `internal_callbacks`, `steam_session`,
    `steam_context`, `account`, `client_id`.
  - Connection: `network`, `work_item`, `playtime_downlink`, `account_downlink_worker`,
    `achievement_worker`.
  - Ownership and tickets: `ownership`, `ticket`, `legacy_cdkey`.
  - Packages, cloud and launches: `package`, `depot`, `cloud`, `cloud_http`, `env`.
  - Machine code: `code_shape` (decoding through `iced-x86`), `ticket`, `current_app`,
    `achievement_adapters`; the list of mappings: `maps`.
  - Installation: `install`, `capability`, `runtime`, `paths`.
  - The packet tool: `packet_tool`, `packet_dump`, `packet_watch`, `packet_simulation`,
    `packet_report`, `json` (reading and writing through `serde_json`).
  - Helpers: `text`, `bytes`, `lists`.
- `tests/` runs the library on concrete values.
- `app/` is the command-line packet tool around it.

Proof functions named `law_...` state what holds across several functions.
