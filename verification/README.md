# dowse

The verified core of dowse, a local full-text search tool for Windows: the
logic of indexing, watching and searching a set of folders, with each
function's behaviour stated in a contract and proved.

- `src/` — the library, verified:
  - `query` — the query-string operators (`path:`, `mtime:`, `size:`, `OR`,
    `-word`/`NOT`), dates and sizes;
  - `usn_translate`, `usn`, `frn_table` — decoding USN journal records,
    pairing renames, resolving file references to paths, catching up on a
    journal;
  - `meta`, `paths` — index roots (no nesting, no duplicates), schema
    version, USN cursors; path display and comparison;
  - `ocr_queue`, `ocr_worker` — the OCR work queue (nothing is lost between
    taking an image and storing its text) and the workers' decisions;
  - `extract`, `xml_text`, `office` — which files have text, plain text
    decoding, and the text of docx/xlsx/pptx packages within a
    decompression budget;
  - `indexer`, `root_ops`, `rebuild`, `indexing_status` — build bookkeeping,
    retries, the course of index operations and their progress;
  - `mcp`, `commands`, `highlight` — the tool and window interfaces' checks
    and results;
  - `config`, `i18n`, `tray`, `window_fx`, `window_drag`, `logging`,
    `state` — the desktop shell's settings, texts, menu, window effects,
    drag/resize gestures and log lines.
- `tests/` — tests run against the compiled library.
- `app/` — the unverified shell: JSON files, disk access, the log, and the
  loops that carry out the library's decisions.
