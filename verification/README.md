# plinth

The catalog and release-builder logic of an STL library manager, written in
Verus: every function in `src/` carries a contract that the verifier proves.

- `src/` — the library.
  - `text` — character-level string primitives (trim, split, join, case folding).
  - `paths` — lexical catalog-root rules (normalization, containment).
  - `identity`, `scanner` — reading model identity out of folder names, and
    assembling one model per directory from what a walk found.
  - `catalog` — catalog rows, search query text, variant keys.
  - `variants` — how a folder with per-file pose assignments fans out into
    catalog members.
  - `jobs` — the registry that keeps conflicting background jobs apart.
  - `dups` — bookkeeping of the staged duplicate scan and merges.
  - `normalize` — planning moves that bring the disk to the canonical layout.
  - `probe` — verdicts of the storage-location checks.
  - `storage`, `manifest`, `release` — staging names, the BLAKE3 checksums
    archives record and imports verify, archive accounting and the release
    manifest.
  - `basecutter`, `cutjob`, `scatter` — base-cut request guards, dates, and the
    line protocols of the cutting scripts, and how a cutting run ends.
  - `minihoard`, `package_open`, `events`, `models`, `error` — smaller records.
- `tests/` — tests run against the compiled library.
- `app/` — a command-line shell around the library: the directory walk, the
  storage probe's real file operations, reading the bytes the library
  hashes, writing archives, and JSON output.
