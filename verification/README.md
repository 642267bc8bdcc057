# vellum

An album-centric music library engine. Each album is a folder holding its
audio files and plain-text TOML manifests; the engine compiles them into a
machine-readable `album.lock.json`, keeps an index of the compiled albums,
serves it to interfaces over HTTP and a WebSocket, drives MPD, and runs
user actions that read the albums' JSON on stdin.

## Layout

- `src/` — the library, verified with Verus: the JSON and TOML models and
  their text forms, the reading of JSON text and of torrent files,
  manifest compression and TOML rendering, tag resolution, the lock file's assembly, the update cache and the decision
  of which albums to compile again, the album index with its libraries,
  filters, facets, orders and shelves, the server's messages, the change
  classification of the configuration watcher, and the planning of Nix
  builds. Contracts are stated over mathematical models (`Seq`, `Map`,
  `Set`); the laws relating several operations are public proof functions
  (`law_*`).
- `tests/` — tests of the library on concrete values.
- `app/` — the program around the library: the command line, file and
  network I/O, the HTTP server, the MPD connection, image processing and the
  calls into the configuration runtime.

The SQL query engine, which answers queries by running the manifest's SQL
in SQLite, is not part of this crate: its logic cannot be separated from
the database that executes it. The server answers from the album index
(`engine::LogicEngine`) instead.
