# bsearch

Indexes the posts of a Bluesky account, its own and the liked ones, and
searches them.

- `src/` is the library, verified with Verus: the sealed archive format and its
  replay, the live stream, the ingest rules, the consumption loop, the search
  pipeline and the configuration.
- `tests/` runs the library with the crates it builds on.
- `app/` is the program around it: the database, HTTP, the WebSocket, the
  command line.

| Module | What it holds |
| --- | --- |
| `bytes`, `text`, `time`, `encoding` | numbers, texts, times and content identifiers as they are written |
| `json`, `wire`, `ipld` | documents of the wire and of the archive, and the records in them |
| `jss` | the segment files: blocks, columns, rows |
| `events`, `live` | frames of the live stream |
| `archive`, `replay` | the snapshot plan and its replay |
| `sweep`, `coverage` | what a whole sweep guarantees, and what interrupted runs add up to |
| `runner`, `jetstream` | the consumption loop, for either version of the stream |
| `ingest`, `likes`, `models`, `store` | what becomes of an event |
| `rank`, `search`, `hybrid` | ranking, filters and the merge of two searches |
| `config`, `cli` | settings and arguments |

The loops are state machines: each step takes what the last action came back
with and says what to do next, and the program performs it.
