# text_search

A desktop full-text search backend: it extracts the text of documents (TXT, Markdown,
CSV, RTF, PDF, DOCX, PPTX, XLS/XLSX, ODT, ODS, ODP), keeps it in an SQLite index, watches
folders for changes, and answers keyword searches over WebSocket / HTTP JSON-RPC.

## Layout

- `src/` is the library, written in Verus and verified: text extraction for each format
  (`parser/`, `extract.rs`, `encoding.rs`, `xml.rs`, `archive.rs`, `formats.rs`, and
  `rtf_scan.rs`, which keeps from the RTF reader the texts it would panic on), the SQL
  and paging of searches and the stored settings (`database.rs`), file name patterns
  (`glob.rs`), paths (`paths.rs`), the watcher's path set and debouncing (`watcher.rs`),
  the indexer's decisions (`indexer.rs`), HTTP heads and responses (`http.rs`), the
  JSON-RPC methods (`rpc.rs`, `api.rs`), the window's texts (`gui.rs`) and start-up
  decisions (`server.rs`, `shutdown.rs`, `logging.rs`). Calls into outside crates go
  through small trusted wrappers whose contracts are stated next to them.
- `app/` is the program around it: SQLite through `rusqlite`, the file system, the
  `notify` watcher, the `tokio` server, JSON and TOML.
- `tests/` runs the library on concrete inputs, documents built in memory included.
