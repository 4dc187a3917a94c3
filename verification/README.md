# archiplayer

A local-first browser and player for the WFMU archives, with its logic
written in Verus and proved against its contracts.

## Layout

- `src/` — the verified library:
  - `wfmu`, `playlist`, `archive`, `schedule`, `live_pages`, `rethink`:
    parsers for the public WFMU pages and the Radio Rethink snapshot;
  - `live`: line-ups, programme matching and synthetic live episodes;
  - `audio`: resolving an episode's audio, step by step, and validating
    archive addresses;
  - `db`, `history`: the merge decisions behind the local library (episode
    order, playlist snapshots, live observations, provider history,
    staleness);
  - `commands`: the decisions and shapes behind each command;
  - `dates`, `downloads`, `export`, `text`, `num`: formatting, file names,
    CSV cells and string helpers;
  - `pattern`, `html`, `json`: the trusted edges to `regex`, `scraper`,
    `serde_json` and `chrono` (and `audio` holds the edge to URL parsing).
- `tests/` — behaviour tests on concrete inputs.
- `app/` — the command-line program: SQLite storage, HTTP fetching,
  downloads and file output around the library.
